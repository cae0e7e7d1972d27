//! Core of a fast concurrent TCP/UDP port scanner: target resolution with
//! CIDR expansion and exclusion sets, port ordering strategies (serial,
//! random permutation, explicit list), a streaming socket iterator over the
//! (ports x IPs) cross product, and the bounded-concurrency scan pool.

pub mod address;
pub mod benchmark;
pub mod input;
pub mod ip;
pub mod numbers;
pub mod port_strategy;
pub mod range_iterator;
pub mod rng;
pub mod scripts;
pub mod scanner;
pub mod socket_iterator;
pub mod textnum;
