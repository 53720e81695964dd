//! On-demand analyses of decoded packets.
pub mod anomaly;
