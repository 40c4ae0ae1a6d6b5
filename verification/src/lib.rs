pub mod clock;
pub mod greeting;
pub mod kind;
pub mod random;
pub mod tape;
pub mod tape_file;
pub mod text;
pub mod value;
pub mod wit;
