pub mod bsp_interior;
pub mod builder;
pub mod cellular_automata;
pub mod common;
pub mod components;
pub mod dla;
pub mod drunkard;
pub mod flood;
pub mod line;
pub mod map;
pub mod paint;
pub mod paths;
pub mod prefab;
pub mod random;
pub mod rect;
pub mod registry;
pub mod simple_map;
pub mod spawn_regions;
pub mod voronoi;
pub mod waveform_collapse;
