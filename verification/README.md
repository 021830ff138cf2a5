# p_clmm

A concentrated-liquidity market maker for Solana, with its logic verified in
Verus.

- `src/` is the verified library: fixed-point and wide-integer arithmetic
  (`libraries/`), the tick, price and liquidity math, one swap step
  (`swap_math`), the swap loop over tick arrays with fee and reward
  accounting (`instructions/swap_internal`), the exact-amount swap with its
  vault and slippage checks (`instructions/exact_internal`), instruction
  and account decoding and checking, the program states (`states/`) and the
  token-program helpers (`util/token`: transfer fees, the transfer-fee
  extension of a mint, transfer instruction data).
- `app/` is the on-chain program around it: the entry point, the stored
  (byte-castable) forms of the states, reading and writing account data,
  the clock, and the token transfers by cross-program invocation.
- `tests/` exercises the library on concrete values.

The wide integers `U128`, `U256` and `U512` are held as little-endian limbs;
their multiplication, division, addition, subtraction and comparison are
those of `primitive-types`, under contracts stated in
`src/libraries/big_num.rs`.
