pub mod args;

pub use args::CliArgs;
