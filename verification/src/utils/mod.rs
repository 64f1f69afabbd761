pub mod dumper;
