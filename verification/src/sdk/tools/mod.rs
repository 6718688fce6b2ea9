pub mod wallet;
pub mod librarian;
pub mod search;
