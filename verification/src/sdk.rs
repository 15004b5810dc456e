pub mod actions;
pub mod api_error;
pub mod bank;
pub mod char_config;
pub mod character;
pub mod config;
pub mod equipment_finder;
pub mod fight_simulator;
pub mod gear;
pub mod gear_finder;
pub mod inventory;
pub mod items;
pub mod orderboard;
pub mod skill;
