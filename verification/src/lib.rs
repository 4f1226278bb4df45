//! Screen-driven pointer correction: locate a colour region in a captured
//! frame, turn it into a cursor correction and drive click automation, with
//! every rule of the pipeline stated as a contract and proved.
//!
//! The library touches neither screen nor pointer. Frames come in as
//! buffers and strokes go out as values; the frame source and the two
//! workers name the call that comes next and take its result, so that what
//! they decide is proved for every result there can be.
//!
//! Fractions are held in thousandths throughout: a colour threshold of 830
//! stands for 0.83.
//!
//! - [`coord`], [`image`]: points and pixel buffers.
//! - [`cluster`], [`aim`]: clusters of matching pixels and the correction
//!   towards them.
//! - [`capture`], [`input`]: the frame source and the pointer, as protocols.
//! - [`aim_worker`], [`click_worker`], [`pixel_bot`], [`startup`]: the two
//!   workers and the runtime around them.
//! - [`config`]: the parameters, and their text.
//! - [`fx`], [`rng`], [`line`]: what is taken on trust from other crates;
//!   [`coord`] holds three conversions of that kind of its own.

pub mod coord;
pub mod image;
pub mod fx;
pub mod cluster;
pub mod aim;
pub mod config;
pub mod input;
pub mod line;
pub mod capture;
pub mod pixel_bot;
pub mod aim_worker;
pub mod rng;
pub mod click_worker;
pub mod gui;
pub mod img_funcs;
pub mod logging;
pub mod startup;
