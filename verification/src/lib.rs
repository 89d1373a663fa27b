//! A YouTube Music client's verified core: the playback queue, the
//! library and discovery state rules, sign-in parsing, and the pure
//! decisions of the stream layer.
pub mod model;
pub mod queue_view;
pub mod random;
pub mod queue;
pub mod seq_facts;
pub mod queue_laws;
pub mod text;
pub mod cookie_paste;
pub mod sign_in;
pub mod thumbnails;
pub mod stream;
pub mod paths;
pub mod skins_dir;
pub mod library_cache;
pub mod local_media;
pub mod player;
pub mod prefetch;
pub mod state;
pub mod discovery;
pub mod effect;
pub mod reply;
pub mod library;
pub mod imports;
pub mod listening_history;
pub mod action;
pub mod theme;
pub mod numbers;
pub mod lyrics;
pub mod durations;
pub mod sign_out;
pub mod auth_flow;
pub mod app_state;
pub mod domains;
pub mod navigation;
pub mod library_loads;
pub mod library_writes;
pub mod discovery_flow;
pub mod reducer;
