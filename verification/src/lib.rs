//! Editor core of PhiMakor.

pub mod beats;
pub mod bytes;
pub mod debug;
pub mod digest;
pub mod editor;
pub mod effects;
pub mod engine;
pub mod events;
pub mod floats;
pub mod fonts;
pub mod forms;
pub mod frame;
pub mod fx;
pub mod glsl;
pub mod http;
pub mod keys;
pub mod library;
pub mod loading;
pub mod loops;
pub mod mirror;
pub mod notes;
pub mod order;
pub mod panels;
pub mod player_page;
pub mod pointer;
pub mod post;
pub mod preview;
pub mod renderer;
pub mod scene;
pub mod scripting;
pub mod shaders;
pub mod single;
pub mod splash;
pub mod strings;
pub mod text;
pub mod texture;
pub mod timeline;
pub mod websocket;
