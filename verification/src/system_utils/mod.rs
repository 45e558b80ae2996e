pub mod console_utils;
