pub mod blueprint;
pub mod combat_state;
pub mod config;
pub mod db;
pub mod dependency_graph;
pub mod dsl;
pub mod gen_npc_tab;
pub mod initiative_order;
pub mod laws;
pub mod npc_builder;
pub mod ordered_map;
pub mod pull_result;
pub mod states;
pub mod text;
pub mod utils;
pub mod view_npc_tab;
