//! Training by back-propagation.

pub mod backprop;
pub mod context;
pub mod trainer;

pub use self::backprop::BackpropMultithreadingOptions;
pub use self::backprop::BackpropOptions;
pub use self::context::NetTrainingContext;
pub use self::trainer::NetTrainerMode;
