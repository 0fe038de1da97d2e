//! Session lifecycle core: the append-only rollout log and its fold
//! ([`rollout`]), session discovery and ordering ([`index`]), the resume
//! picker's rows and state machine ([`picker_rows`], [`picker`]), and the
//! interrupt slot of a locally run command ([`interrupt`]).

pub mod cli;
pub mod clock;
pub mod hosts;
pub mod index;
pub mod interrupt;
pub mod picker;
pub mod picker_rows;
pub mod rollout;
pub mod row_text;
pub mod session_title;
pub mod text;
