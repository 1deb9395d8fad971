pub mod space;
