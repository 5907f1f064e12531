//! Decoding of the Counter-Strike 2 demo net messages that carry chat,
//! console variables, item drops, end-of-match player data and class
//! tables, together with the tables built from them.
pub mod wire;
pub mod messages;
pub mod records;
pub mod decode;
pub mod maps;
pub mod classes;
pub mod netmessages;
pub mod text;
pub mod rows;
pub mod concat;
pub mod encode;
pub mod nested;
