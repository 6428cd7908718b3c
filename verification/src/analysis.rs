pub mod caveman;
