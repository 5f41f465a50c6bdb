//! Core of a broadcast chat transport: a fixed-size frame codec, a
//! hash-derived connection identity, a connection registry with
//! broadcast-and-prune, and the per-thread decision logic of the server
//! dispatch loop and the client duplex loop.

mod codec;
mod identity;
mod port;
mod protocol;
mod registry;

pub use codec::DecodeError;
pub use codec::MESSAGE_SIZE;
pub use codec::decode;
pub use codec::decoded_text;
pub use codec::encode;
pub use codec::encoded_frame;
pub use codec::first_nul;
pub use codec::frame_of;
pub use codec::lemma_encode_decode_round_trip;
pub use codec::lemma_no_nul_char_no_zero_byte;
pub use codec::lemma_payload_of_frame;
pub use codec::lemma_round_trip_no_nul;
pub use codec::payload_of;
pub use identity::MAX_IDENTITY_LENGTH;
pub use identity::generate_identity;
pub use identity::hex_char;
pub use identity::hex_of;
pub use identity::identity_of;
pub use identity::port_be_bytes;
pub use identity::sha256_of;
pub use identity::validate_identity_length;
pub use registry::Connection;
pub use registry::Message;
pub use registry::Registry;
pub use registry::frame_for;
pub use registry::lemma_pruned_retains;
pub use registry::lemma_pruned_sound;
pub use registry::pruned;
pub use registry::render_message;
pub use registry::rendered;
pub use port::decimal_value;
pub use port::is_digit;
pub use port::is_valid_port_arg;
pub use port::port_digits;
pub use port::validate_port_arg;
pub use protocol::ClientStep;
pub use protocol::InputAction;
pub use protocol::ReadEvent;
pub use protocol::ReadStep;
pub use protocol::handle_read_event;
pub use protocol::handle_server_frame;
pub use protocol::input_action;
