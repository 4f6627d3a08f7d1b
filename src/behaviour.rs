pub mod build_behaviour;
pub mod move_behaviour;
pub mod free_space_manager;
pub mod move_and_build_behaviour;
pub mod farmer_behaviour;
pub mod agent_behaviour;
pub mod behaviour_regestry;
