//! What holds of the library as a whole.

pub mod anomalies;
pub mod captures;
pub mod causes;
pub mod counting;
pub mod detection;
pub mod domains;
pub mod exchanges;
pub mod findings;
pub mod frames;
pub mod histories;
pub mod messages;
pub mod names;
pub mod numbers;
pub mod reports;
pub mod traces;
pub mod views;
