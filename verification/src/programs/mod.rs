pub mod shell;
pub mod clock;
pub mod path_laws;
