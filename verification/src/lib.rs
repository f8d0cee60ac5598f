use vstd::prelude::*;

pub mod text;
pub mod tag_rule;
pub mod phash;
pub mod user;
pub mod post;
pub mod poster;
pub mod feed;
pub mod publisher;
pub mod scheduler;
pub mod pool_batch;
pub mod policy;
pub mod handler;
pub mod board;
pub mod e621;
pub mod curation;
pub mod bot;
pub mod webauth;
pub mod rule_text;
pub mod poster_edit;
pub mod callback;
pub mod diagnosis;
pub mod links;
pub mod keyboard;
pub mod moderation;
pub mod submission;

verus! {
}
