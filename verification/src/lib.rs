pub mod stream;
pub mod tokenizer;
