//! Coordination of controllers and participants through a key-value store.
pub mod etcd;
