pub mod local_adapter;
