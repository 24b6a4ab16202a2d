//! Rules of a personal share-portfolio service.
pub mod text;
pub mod number;
pub mod dates;
pub mod json;
pub mod config;
pub mod textmap;
pub mod order;
pub mod reply;
pub mod settings;
pub mod indicators;
pub mod symbols;
pub mod fields;
pub mod marks;
pub mod stops;
pub mod context;
pub mod valuation;
pub mod risk;
pub mod lists;
pub mod overview;
pub mod portfolio;
pub mod history;
pub mod cash;
pub mod settle;
pub mod csv;
pub mod drawings;
pub mod access;
pub mod quotes;
pub mod bars;
pub mod rates;
pub mod debounce;
pub mod dividends;
pub mod records;
pub mod transactions;
pub mod watchlist;
pub mod rename;
pub mod analysis;
pub mod refresh;
pub mod events;
pub mod exact;
pub mod sales;
pub mod meta;
