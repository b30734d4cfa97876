//! Auto-discovery and port forwarding of the apps on the user's active SSH connections.
//!
//! The library decides; the program around it runs commands, keeps the time and draws. It is made
//! of these parts:
//!
//! - [`text`]: texts as sequences of characters, and how they are taken apart.
//! - [`maps`]: ordered maps.
//! - [`types`]: what the worker and the user interface tell each other.
//! - [`state`]: what is remembered from one run to the next.
//! - [`util`]: commands to run, what they printed, and the time.
//! - [`discover`]: the ssh clients in the process table, and what ssh makes of their destinations.
//! - [`addr`]: the addresses that listeners are bound to.
//! - [`remote`]: the listeners that a scan of a server has found.
//! - [`ports`]: the choice of a local port, and who holds one.
//! - [`control`]: the ssh masters that forwards ride on.
//! - [`host`] and [`worker`]: the state of every host, and what follows from each message.
//! - [`screen`] and [`ui`]: what is drawn, and what follows from each key.
//!
//! What holds of all of this, whatever happens, is stated and proved beside it: [`laws`] across the
//! parts; [`text_laws`], [`session_laws`], [`addr_laws`], [`scan_laws`], [`refusal_laws`] and
//! [`port_laws`] of what is read; [`answer_laws`] of commands and of the file; [`link_laws`],
//! [`forward_laws`], [`effect_laws`] and [`worker_laws`] of the worker; and [`screen_laws`],
//! [`layout_laws`], [`key_laws`] and [`ui_laws`] of the user interface.
pub mod addr;
pub mod addr_laws;
pub mod answer_laws;
pub mod control;
pub mod discover;
pub mod effect_laws;
pub mod forward_laws;
pub mod host;
pub mod key_laws;
pub mod laws;
pub mod layout_laws;
pub mod link_laws;
pub mod maps;
pub mod port_laws;
pub mod ports;
pub mod refusal_laws;
pub mod remote;
pub mod scan_laws;
pub mod screen;
pub mod screen_laws;
pub mod session_laws;
pub mod state;
pub mod text;
pub mod text_laws;
pub mod types;
pub mod ui;
pub mod ui_laws;
pub mod util;
pub mod worker;
pub mod worker_laws;
