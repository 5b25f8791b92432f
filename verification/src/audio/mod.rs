//! Audio capture: what is heard, when it was said and in which order it is shown.

pub mod capture;
pub mod channel;
pub mod order;
pub mod speaker;
pub mod status;
pub mod transcript;
pub mod vad;
pub mod wav;
