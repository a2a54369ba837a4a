//! The error taxonomy of the scraper.
//!
//! `NoOnlineData` is the expected terminal signal when walking past an
//! asset's listing date; every other variant is a real failure for the
//! archive or asset at hand. `ConfigError` alone reflects a defect in
//! the run's configuration rather than a runtime condition.

use vstd::prelude::*;

verus! {

#[derive(Debug)]
pub enum ScrapperError {
    /// A file could not be read, written or removed.
    IOError(String),
    /// An archive could not be opened or decompressed.
    ZipError(String),
    /// A row of the archive's table had the wrong shape.
    CsvError(String),
    /// The remote store answered with a transport failure or an
    /// unexpected status.
    NetworkError(String),
    /// A field could not be parsed as a number.
    ParseError(String),
    /// A checksum mismatch, missing data, or out-of-order timestamps.
    IntegrityError(String),
    /// An unsupported granularity: a configuration defect.
    ConfigError(String),
    /// The remote store has no archive at this address.
    NoOnlineData,
}

impl ScrapperError {
    /// A human-readable description, one fixed prefix per variant.
    pub fn message(&self) -> (r: String)
        ensures
            match self {
                ScrapperError::IOError(m) => r@ == "IO error: "@ + m@,
                ScrapperError::ZipError(m) => r@ == "Zip error: "@ + m@,
                ScrapperError::CsvError(m) => r@ == "Csv error: "@ + m@,
                ScrapperError::NetworkError(m) => r@ == "Network error: "@ + m@,
                ScrapperError::ParseError(m) => r@ == "Parse error: "@ + m@,
                ScrapperError::IntegrityError(m) => r@ == "Integrity error: "@ + m@,
                ScrapperError::ConfigError(m) => r@ == "Config error: "@ + m@,
                ScrapperError::NoOnlineData => r@ == "No data available on Binance servers"@,
            },
    {
        match self {
            ScrapperError::IOError(m) => {
                let mut s = String::from_str("IO error: ");
                s.append(m.as_str());
                s
            },
            ScrapperError::ZipError(m) => {
                let mut s = String::from_str("Zip error: ");
                s.append(m.as_str());
                s
            },
            ScrapperError::CsvError(m) => {
                let mut s = String::from_str("Csv error: ");
                s.append(m.as_str());
                s
            },
            ScrapperError::NetworkError(m) => {
                let mut s = String::from_str("Network error: ");
                s.append(m.as_str());
                s
            },
            ScrapperError::ParseError(m) => {
                let mut s = String::from_str("Parse error: ");
                s.append(m.as_str());
                s
            },
            ScrapperError::IntegrityError(m) => {
                let mut s = String::from_str("Integrity error: ");
                s.append(m.as_str());
                s
            },
            ScrapperError::ConfigError(m) => {
                let mut s = String::from_str("Config error: ");
                s.append(m.as_str());
                s
            },
            ScrapperError::NoOnlineData => String::from_str("No data available on Binance servers"),
        }
    }
}

} // verus!
