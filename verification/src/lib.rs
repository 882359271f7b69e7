//! A grading-scale engine for exams: it maps point totals to grades
//! through named or custom boundary tables, derives per-grade point
//! thresholds, lets thresholds be nudged interactively while keeping the
//! named presets untouched, and computes per-student grades and
//! aggregate statistics from a roster.
//!
//! Point quantities are held in half-point units (see [`points::Points`]),
//! boundary shares as exact integer fractions (see [`scale::Share`]),
//! and displayed percentages as integer hundredths, so every
//! computation is exact integer arithmetic.

pub mod action;
pub mod command;
pub mod controller;
pub mod export;
pub mod grade;
pub mod input;
pub mod model;
pub mod points;
pub mod rows;
pub mod scale;
pub mod students;
pub mod text;

pub use points::Points;
