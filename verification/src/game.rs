pub mod agent;
pub mod good_ideas;
