pub mod cooldown;
pub mod startup;
pub mod question;
pub mod wager;
pub mod vote;
pub mod results;
