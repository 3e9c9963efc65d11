//! The city's durable state and the rules that change it.

pub mod accounts;
pub mod book;
pub mod book_laws;
pub mod building;
pub mod building_laws;
pub mod candle_laws;
pub mod candles;
pub mod checks;
pub mod costs;
pub mod db;
pub mod equipment;
pub mod equipment_laws;
pub mod fee_laws;
pub mod health;
pub mod health_laws;
pub mod home_laws;
pub mod homes;
mod ids;
pub mod house_laws;
pub mod inventory;
pub mod job_rows;
pub mod land;
pub mod ledger_laws;
pub mod listing_laws;
pub mod listings;
pub mod lookup_laws;
pub mod market;
pub mod market_laws;
pub mod order_laws;
pub mod people_laws;
pub mod plot_laws;
pub mod plots;
pub mod provisioner;
pub mod provisioner_laws;
pub mod provisioner_rounds;
pub mod purse;
pub mod road_laws;
pub mod roads;
pub mod rows;
pub mod seeding;
pub mod skills;
pub mod soundness;
pub mod station_laws;
pub mod stations;
pub mod stockroom;
pub mod storage;
pub mod storage_fees;
pub mod storage_laws;
pub mod terrain;
pub mod warehouse;
