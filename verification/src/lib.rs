pub mod text;
pub mod pitch;
pub mod devices;
pub mod pcm;
pub mod signal;
pub mod track;
pub mod control;
