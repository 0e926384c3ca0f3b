//! Verified core logic of a voxel sandbox: block positions, cube shells,
//! bounded circular queues, level-of-detail bookkeeping and the loaders
//! that keep the surroundings of a player loaded.
pub mod block_position;
pub mod range_abs;
pub mod cube_shell;
pub mod glw;
pub mod glbuffer;
pub mod queue;
pub mod id_allocator;
pub mod id_slots;
pub mod state;
pub mod lod_map;
pub mod sun;
pub mod surroundings_iter;
pub mod surroundings_loader;
pub mod terrain;
pub mod player;
pub mod client;
pub mod stopwatch;
pub mod event_handler;
pub mod block;
pub mod borrow;
pub mod color;
pub mod common;
pub mod mob;
pub mod jump;
pub mod loader;
pub mod octree;
pub mod process_event;
pub mod shader;
pub mod in_progress_terrain;
