pub mod adpcm;
pub mod audiocore;
pub mod bitwise;
pub mod copiablebuf;
pub mod decoders;
pub mod downmixer;
pub mod encoders;
pub mod errors;
pub mod filehasher;
pub mod wavcore;
