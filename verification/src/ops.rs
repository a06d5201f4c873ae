pub mod switch;
