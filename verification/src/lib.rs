//! Assignment of students to the projects of a school project week.
//!
//! The library holds the roster model, the resolver that turns a free-text
//! partner wish into a student, the integer program that describes a valid
//! assignment, and the evaluation of a solved assignment.

pub mod data;
pub mod einteilung;
pub mod export;
pub mod keys;
pub mod partner;
pub mod schueler;
pub mod solver;
pub mod tabelle;
pub mod text;
pub mod types;

pub use data::Data;
pub use data::Projekt;
