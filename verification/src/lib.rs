//! Search-and-ranking engine of a quick launcher.
//!
//! The core is the phonetic normaliser (`text_utils`), the canonical index
//! builder (`indexer`), the ranking engine (`search_core`) and the bounded
//! caches with the session state (`state`). Around it stand the decisions of
//! the candidate sources (`bookmarks`, `shortcuts`), of executing an action
//! (`execute`), of the terminal interface (`tui`, `settings`) and of capturing
//! a hotkey (`hotkey_capture`). The modules whose names end in `_proofs` hold
//! what is proved of every search, index, cache and sorted list.
//!
//! Text is specified as its sequence of characters; `text` holds the
//! primitives on it, `stable_order` the stable sorting that both the index and
//! the ranking use.

pub mod bookmarks;
pub mod config;
pub mod execute;
pub mod hotkey_capture;
pub mod indexer;
pub mod indexer_proofs;
pub mod models;
pub mod search_core;
pub mod search_proofs;
pub mod settings;
pub mod shortcuts;
pub mod stable_order;
pub mod state;
pub mod state_proofs;
pub mod text;
pub mod text_proofs;
pub mod text_utils;
pub mod tui;
