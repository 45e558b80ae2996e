pub mod console_utils;
pub mod thread_utils;
