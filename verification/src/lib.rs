//! The logic of a load-testing tool: test definitions and their templates, data rows,
//! checks and extractors on responses, metrics and where they go, the coordination of
//! agents, plans that are generated from API contracts, and reports on runs.
//!
//! What only the outside can do (files, sockets, a browser, a database) is left to the
//! program: functions here take plain values and return plain values, or the effects
//! that are to be carried out.
pub mod browser;
pub mod chain;
pub mod clock;
pub mod command;
pub mod conditions;
pub mod config;
pub mod contract;
pub mod controller;
pub mod copilot;
pub mod data;
pub mod delta;
pub mod diagnostics;
pub mod document;
pub mod duration;
pub mod encoding;
pub mod example;
pub mod explain;
pub mod extract;
pub mod feeds;
pub mod files;
pub mod float;
pub mod fuzz;
pub mod graphql;
pub mod grpc;
pub mod headers;
pub mod history;
pub mod influx;
pub mod json;
pub mod lines;
pub mod listing;
pub mod merge;
pub mod messages;
pub mod metrics;
pub mod modules;
pub mod openapi;
pub mod otlp;
pub mod output_flag;
pub mod patterns;
pub mod plan;
pub mod postman;
pub mod prometheus;
pub mod protocol;
pub mod random;
pub mod report;
pub mod rows;
pub mod runs;
pub mod session;
pub mod snapshot;
pub mod statsd;
pub mod strmap;
pub mod submit;
pub mod summary;
pub mod sweep;
pub mod tags;
pub mod template;
pub mod text;
pub mod ui;
pub mod vu;
pub mod yaml;
