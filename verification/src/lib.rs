//! The core of a data acquisition gateway: the contracts of drivers, the wire format between
//! core and driver, the state of endpoints and their points, the configuration store and the
//! decisions behind the management interface.
pub mod api;
pub mod audit;
pub mod bootstrap;
pub mod capability;
pub mod certificates;
pub mod connection;
pub mod control;
pub mod descriptor;
pub mod devices;
pub mod endpoint;
pub mod endpoints;
pub mod event;
pub mod event_protocol;
pub mod float;
pub mod gate;
pub mod ids;
pub mod ingress;
pub mod json;
pub mod manager;
pub mod manifest;
pub mod migration;
pub mod outline;
pub mod pattern;
pub mod pb;
pub mod points;
pub mod probe;
pub mod process;
pub mod profile;
pub mod protocol;
pub mod queries;
pub mod render;
pub mod report;
pub mod resource;
pub mod schema;
pub mod secrets;
pub mod session;
pub mod snapshot;
pub mod source;
pub mod startup;
pub mod store;
pub mod table;
pub mod tasks;
pub mod temp_op;
pub mod text;
pub mod types;
pub mod wire;
