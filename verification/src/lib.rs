//! Verified core of the daily check-in service: text and time helpers,
//! request signing, credential and session cryptography, and the
//! decisions the service takes about accounts, schedules and sessions.

pub mod text;
pub mod time;
pub mod primitives;
pub mod form;
pub mod models;
pub mod crypto;
pub mod protocol;
pub mod session;
pub mod login;
pub mod json;
pub mod api;
pub mod replies;
pub mod runner;
pub mod renew;
pub mod signin;
pub mod service;
pub mod lan;
pub mod scheduler;
pub mod web;
