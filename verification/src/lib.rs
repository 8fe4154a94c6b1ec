pub mod text;
pub mod model;
pub mod layout;
pub mod plan;
pub mod planner;
pub mod commands;
pub mod render;
pub mod world;
pub mod dispatch;
pub mod postprocess;
pub mod gpu;
pub mod synthetic;
pub mod gpu_post;
pub mod probe;
pub mod runtime;
pub mod motion;
pub mod gpu_scene;
pub mod gpu_mask;
pub mod guarantees;
pub mod core_model;
pub mod compare;
pub mod assets;
pub mod gpu_pass;
pub mod nesting;
