//! Core logic of a GPS asset tracker: the receiver's CASIC framer and NMEA line
//! buffer, the GPS duty-cycle controller and assisted-data upload, the shared
//! advertising arbiter, the Find My and FMDN offline-finding key engines
//! (with SECP160R1 arithmetic), the track-log codec and log-store decisions,
//! and the BLE file-transfer protocol.
pub mod casic;
pub mod digest;
pub mod eid;
pub mod secp160r1;
pub mod timezone;
pub mod system_info;
pub mod agnss;
pub mod log_codec;
pub mod adv_scheduler;
pub mod findmy;
pub mod protocol;
pub mod gps_state_machine;
pub mod nmea;
pub mod log_name;
pub mod log_store;
pub mod clock;
