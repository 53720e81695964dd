//! Passive enrichment of observed traffic: IP→name resolution (DNS answers and
//! TLS SNI) and the geo/ASN information of destinations.
pub mod geoip;
pub mod names;
