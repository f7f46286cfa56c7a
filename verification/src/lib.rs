//! Local-first sync logic for the KE8YGW logger: LAN discovery bookkeeping,
//! hash-chained replication, offline mutation queues, LAN trust, hosted
//! account planning, and the request routing rules of the servers.
#![allow(unused_imports)]

pub mod text;
pub mod ids;
pub mod query;
pub mod hosted_api;
pub mod events;
pub mod offline;
pub mod account;
pub mod account_reply;
pub mod replication;
pub mod peers;
pub mod lan_trust;
pub mod conflicts;
pub mod hosted_server;
pub mod cloud;
pub mod sync_server;
pub mod projector;
pub mod admin_http;
pub mod qso_payload;
pub mod desktop;
pub mod http_head;
