pub mod x86_64;
