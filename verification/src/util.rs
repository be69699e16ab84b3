//! Small general-purpose containers used by the model.

pub mod matrix;
