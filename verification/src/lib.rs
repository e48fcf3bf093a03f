//! Devices of a small control loop, as a verified library.
//!
//! An environment makes up data, sensors measure them, a controller
//! gathers what the sensors measure and decides on commands, and
//! actuators pass the commands on to the environment. The devices find one
//! another on the local network and talk in short messages in the manner
//! of HTTP/1.1.
//!
//! The library holds what the devices say and decide, and proves it: the
//! messages and how they are written and read ([`message`], [`headers`],
//! [`framing`]), the data that they carry ([`datum`], [`value`],
//! [`number`], [`unit`], [`kind`], [`timestamp`], [`command`]), the store
//! of the newest data ([`buffer`]), what is known of other devices
//! ([`service`], [`table`]), and the part of each device in the loop
//! ([`device`], [`sensor`], [`actuator`], [`controller`], [`environment`],
//! [`assessor`], [`generator`]). Sockets, threads and discovery are left to
//! the program around it, which hands the library bytes and moments and
//! sends what the library tells it to send.

pub mod actuator;
pub mod actuator_temperature;
pub mod address;
pub mod assessor;
pub mod buffer;
pub mod command;
pub mod controller;
pub mod datum;
pub mod device;
pub mod digits;
pub mod dispatch;
pub mod environment;
pub mod framing;
pub mod generator;
pub mod headers;
pub mod id;
pub mod kind;
pub mod message;
pub mod model;
pub mod name;
pub mod number;
pub mod object;
pub mod request;
pub mod sensor;
pub mod sensor_temperature;
pub mod service;
pub mod table;
pub mod text;
pub mod timestamp;
pub mod unit;
pub mod value;
