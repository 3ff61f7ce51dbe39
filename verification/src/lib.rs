//! A wire-format codec for MQTT-style control packets: a fixed-capacity byte
//! buffer is turned into a typed packet structure and back, under hard upper
//! bounds on buffer size and property count.

pub mod buffer_reader;
pub mod buffer_writer;
pub mod error;
pub mod mqtt_packet;
pub mod packet_type;
pub mod property;
pub mod property_storage;
pub mod pubrec_packet;
pub mod variable_byte_integer;
pub mod wire;
