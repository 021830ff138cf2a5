pub mod account_load;
pub mod bytes;
pub mod token;
