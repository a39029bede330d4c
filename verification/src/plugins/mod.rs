pub mod find_replace;
