//! Controller proxy, recording and review logic for a Switch Pro Controller.
pub mod audio;
pub mod bytes;
pub mod clock;
pub mod config;
pub mod cuttlefish;
pub mod cuttlefish_laws;
pub mod device;
pub mod double;
pub mod downloads;
pub mod downloads_laws;
pub mod dump;
pub mod dumper;
pub mod frame;
pub mod gadget;
pub mod inspect;
pub mod inspector;
pub mod inspector_laws;
pub mod json;
pub mod keystate;
pub mod knowledge;
pub mod knowledge_laws;
pub mod motion;
pub mod objects;
pub mod parser;
pub mod paths;
pub mod player;
pub mod priority;
pub mod proxy;
pub mod ranges;
pub mod recorder;
pub mod replay;
pub mod replay_laws;
pub mod report;
pub mod review;
pub mod review_laws;
pub mod review_routes;
pub mod stream;
pub mod studio;
pub mod text;
pub mod text_laws;
pub mod video;
pub mod video_laws;
pub mod vision;
pub mod vision_laws;
pub mod vision_results;
pub mod wake;
pub mod web;
pub mod web_visualization;
