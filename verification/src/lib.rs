pub mod decimal;
pub mod fixed;
pub mod geometry;
pub mod logo;
pub mod markup;
pub mod naming;
pub mod palette;
pub mod root;
pub mod shapes;
