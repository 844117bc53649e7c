pub mod public_channel_manager;
