//! Share a desktop keyboard and mouse with an Android device.
#![allow(unused_imports)]

pub mod bytes;
pub mod packet;
pub mod hid;
pub mod uhid;
pub mod keys;
pub mod num;
pub mod text;
pub mod ip;
pub mod json;
pub mod devices;
pub mod saved;
pub mod store;
pub mod clock;
pub mod forecast;
pub mod filter;
pub mod sampler;
pub mod bins;
pub mod pointer;
pub mod desktop;
pub mod udp;
pub mod peer;
pub mod link;
pub mod adb;
pub mod agent;
pub mod terminal;
pub mod editor;
pub mod frame;
pub mod roster;
pub mod menu;
pub mod forms;
pub mod reconnect;
pub mod manage;
pub mod home;
pub mod release;
