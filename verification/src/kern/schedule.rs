pub mod apply;
