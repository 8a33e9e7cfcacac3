//! A hardware abstraction layer for two peripherals of a handheld-console
//! system on chip: a DMA transfer engine and an AES crypto engine with
//! hardware key-slot management.
//!
//! The drivers talk to their devices through fixed register layouts. The
//! register banks and the word-addressed memory the DMA engine moves data
//! through are modelled as explicit values, so every register write, every
//! transfer and every cipher operation is ordinary verified code.

pub mod aes;
pub mod aes_core;
pub mod bits;
pub mod ndma;
