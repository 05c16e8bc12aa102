//! Game-state logic of a small multiplayer world: quests and dialogue,
//! skills, inventory, parties, buddies and street data.

pub mod strmap;
pub mod text;
pub mod item;
pub mod skill;
pub mod quest;
pub mod validate;
pub mod soundkit;
pub mod network;
pub mod emote;
pub mod street;
pub mod physics;
pub mod social;
pub mod hexcode;
pub mod seqs;
pub mod sorting;
