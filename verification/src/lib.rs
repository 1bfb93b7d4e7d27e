pub mod funding;
pub mod gossip;
pub mod network;
pub mod node_id;
pub mod probe;
pub mod probe_log;
pub mod replay;
pub mod report;
pub mod simulation;
pub mod text;
