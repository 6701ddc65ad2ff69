//! Services of the connector.

pub mod certificates;
