pub mod call_frame;

pub use call_frame::CallFrame;
