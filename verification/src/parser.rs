//! The parsers, one for each kind of document that a device hands out.

pub mod description;
pub mod directory;
pub mod response;

pub use self::description::{parse_location, parse_service_description, parse_services};
pub use self::directory::{
    deserialize_content_directory, deserialize_metadata, parse_browse_response,
};
pub use self::response::{
    parse_av_transport_uri_metadata, parse_current_play_mode, parse_current_track_metadata,
    parse_duration, parse_last_change, parse_position, parse_supported_protocols,
    parse_transport_info, parse_transport_state, parse_volume,
};
