//! Record keeping for group movie nights: movies, persons, the nights they
//! watched together, the ratings given to each viewing, and ordered watchlists.
//!
//! All state lives in a [`store::Store`], an in-memory relational store whose
//! tables mirror the persisted schema. Every write either succeeds as a whole
//! or leaves the store unchanged, and every read is stated over spec functions
//! of the tables.

mod clock;
pub mod model;
pub mod store;
pub mod ordering;
pub mod stats;
pub mod history;
pub mod watchlist;
pub mod search;
pub mod laws;

pub use model::{
    Id, Mean, Movie, MovieStub, MovieView, Night, Person, Rating, StoreError, Watchlist,
    WatchlistEntry,
};
pub use store::Store;
