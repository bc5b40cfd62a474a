//! A debounced, ordered relay queue.
//!
//! Inbound events carrying audio attachments arrive in bursts from a single
//! authorized sender. Instead of republishing each attachment as it arrives,
//! the library coalesces a burst into one batch, ordered by sequence key,
//! which a single drain worker dispatches to the public channel, pacing the
//! outbound calls and predicting (then correcting) the identifier the
//! platform assigns to each post.
//!
//! The library holds the decision logic only: queue admission and drain,
//! worker-lifecycle bookkeeping, identifier prediction, and admission-gate
//! classification. The surrounding process performs the network calls, the
//! sleeps and the locking, and feeds the outcomes back in as plain values.

pub mod dispatch;
pub mod gate;
pub mod queue;
pub mod text;
pub mod tracker;
