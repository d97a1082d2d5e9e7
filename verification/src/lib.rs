//! Verified core of a desktop pet that follows the cursor: the text and byte
//! formats it reads and writes, the pet catalogue rules, and the decisions of
//! its event loops.

pub mod cursor;
pub mod events;
pub mod hypr;
pub mod order;
pub mod paths;
pub mod pets;
pub mod png;
pub mod text;
