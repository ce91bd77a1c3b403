//! The logic of a trader on two prediction-market venues: what it may quote,
//! how it exits a basket, and what must hold before it touches a venue.

pub mod advance;
pub mod args;
pub mod args_laws;
pub mod assoc;
pub mod batch;
pub mod board;
pub mod choice_laws;
pub mod close_laws;
pub mod closing;
pub mod cycle;
pub mod debounce;
pub mod decide;
pub mod decide_laws;
pub mod decimal;
pub mod depth;
pub mod digits;
pub mod exit;
pub mod exit_laws;
pub mod fees;
pub mod fill_laws;
pub mod fills;
pub mod found_laws;
pub mod gate;
pub mod gauges;
pub mod group;
pub mod hedge;
pub mod hedge_laws;
pub mod ids;
pub mod keys;
pub mod ladder;
pub mod ladder_laws;
pub mod ledger;
pub mod lines;
pub mod live;
pub mod lock_laws;
pub mod lot;
pub mod lot_laws;
pub mod lot_steps;
pub mod market_laws;
pub mod money;
pub mod naked_act;
pub mod order;
pub mod pass_laws;
pub mod policy;
pub mod position_laws;
pub mod pricing;
pub mod pricing_laws;
pub mod ratio;
pub mod record;
pub mod registry_laws;
pub mod resting_laws;
pub mod seeding;
pub mod slot;
pub mod slot_laws;
pub mod snapshot;
pub mod spelling;
pub mod standoff;
pub mod startup;
pub mod startup_laws;
pub mod text;
pub mod turn;
pub mod venue;
