//! Escape-time rendering of the Mandelbrot set.
//!
//! For every pixel of an image the renderer finds the point of the complex
//! plane that the pixel stands for ([`mapper`]), counts the steps of
//! `z <- z^2 + c` until the orbit leaves the circle of radius 2 ([`escape`]),
//! turns the count into a colour ([`pixel`]) and writes it into the pixel's
//! cell of the raster ([`render`], [`raster`]).
//!
//! The number type is the caller's: coordinates are values of a type `Z` on
//! which the caller supplies the few operations listed in [`arithmetic`], at
//! whatever precision it chooses. What is checked before a render starts is in
//! [`settings`] and [`config`].

pub mod arithmetic;
pub mod config;
pub mod escape;
pub mod mapper;
pub mod pixel;
pub mod raster;
pub mod render;
pub mod settings;
