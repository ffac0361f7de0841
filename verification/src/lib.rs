pub mod mapreduce;
pub mod query;
