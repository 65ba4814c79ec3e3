pub mod id_key;
pub mod id_manager;
pub mod enum_downcast;
pub mod map_util;
