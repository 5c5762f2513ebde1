pub mod parsed_plugins;
pub mod app_config;
pub mod merge_plan;
pub mod load_order;
pub mod conflict_image;
