//! Naming for one monthly archive: display name, file name, download
//! URL and the local cache directories, all derived from the asset,
//! the granularity and the month addressed.

use vstd::prelude::*;
use crate::utils::text::dec_chars;
use crate::utils::text::dec_chars_signed;
use crate::utils::text::i32_to_string;
use crate::utils::text::u64_to_string;

verus! {

/// The month number padded to two digits for file names.
pub open spec fn padded_month_chars(month: nat) -> Seq<char> {
    if month < 10 {
        "0"@ + dec_chars(month)
    } else {
        dec_chars(month)
    }
}

pub struct AssetFile {
    pub asset: String,
    pub granularity: String,
    pub year: i32,
    pub month: u32,
}

impl AssetFile {
    /// `[{asset}USDT {granularity} -> {month}/{year}]`.
    pub open spec fn spec_display_name(self) -> Seq<char> {
        "["@ + self.asset@ + "USDT "@ + self.granularity@ + " -> "@ + dec_chars(self.month as nat)
            + "/"@ + dec_chars_signed(self.year as int) + "]"@
    }

    /// `{asset}USDT-{granularity}-{year}-{month}`.
    pub open spec fn spec_file_name(self) -> Seq<char> {
        self.asset@ + "USDT-"@ + self.granularity@ + "-"@ + dec_chars_signed(self.year as int)
            + "-"@ + padded_month_chars(self.month as nat)
    }

    /// `./binance_data/{directory}{asset}USDT/{granularity}/`.
    pub open spec fn spec_local_directory(self, directory: Seq<char>) -> Seq<char> {
        "./binance_data/"@ + directory + self.asset@ + "USDT/"@ + self.granularity@ + "/"@
    }

    /// The remote address of the archive object.
    pub open spec fn spec_download_url(self, extension: Seq<char>) -> Seq<char> {
        "https://data.binance.vision/data/spot/monthly/klines/"@ + self.asset@ + "USDT/"@
            + self.granularity@ + "/"@ + self.spec_file_name() + extension
    }

    pub fn new(asset: &str, granularity: &str, year: i32, month: u32) -> (r: AssetFile)
        ensures
            r.asset@ == asset@,
            r.granularity@ == granularity@,
            r.year == year,
            r.month == month,
    {
        AssetFile { asset: asset.to_owned(), granularity: granularity.to_owned(), year, month }
    }

    /// The name shown for this archive while it is worked on.
    pub fn get_display_name(&self) -> (r: String)
        ensures
            r@ == self.spec_display_name(),
    {
        let mut s = String::from_str("[");
        s.append(self.asset.as_str());
        s.append("USDT ");
        s.append(self.granularity.as_str());
        s.append(" -> ");
        s.append(u64_to_string(self.month as u64).as_str());
        s.append("/");
        s.append(i32_to_string(self.year).as_str());
        s.append("]");
        s
    }

    /// The archive's base file name.
    pub fn get_file_name(&self) -> (r: String)
        ensures
            r@ == self.spec_file_name(),
    {
        let mut s = self.asset.clone();
        s.append("USDT-");
        s.append(self.granularity.as_str());
        s.append("-");
        s.append(i32_to_string(self.year).as_str());
        s.append("-");
        if self.month < 10 {
            s.append("0");
        }
        s.append(u64_to_string(self.month as u64).as_str());
        proof {
            assert(s@ =~= self.spec_file_name());
        }
        s
    }

    /// Where the archive and its checksum file are cached.
    pub fn get_download_directory(&self) -> (r: String)
        ensures
            r@ == self.spec_local_directory("downloads/"@),
    {
        self.get_local_directory("downloads/")
    }

    /// Where extracted results for this asset go.
    pub fn get_extract_directory(&self) -> (r: String)
        ensures
            r@ == self.spec_local_directory("results/"@),
    {
        self.get_local_directory("results/")
    }

    /// The file name with `extension` appended.
    pub fn get_full_file_name(&self, extension: &str) -> (r: String)
        ensures
            r@ == self.spec_file_name() + extension@,
    {
        let mut s = self.get_file_name();
        s.append(extension);
        s
    }

    /// The remote address of the archive object with `extension`.
    pub fn get_download_url(&self, extension: &str) -> (r: String)
        ensures
            r@ == self.spec_download_url(extension@),
    {
        let mut s = String::from_str("https://data.binance.vision/data/spot/monthly/klines/");
        s.append(self.asset.as_str());
        s.append("USDT/");
        s.append(self.granularity.as_str());
        s.append("/");
        s.append(self.get_full_file_name(extension).as_str());
        proof {
            assert(s@ =~= self.spec_download_url(extension@));
        }
        s
    }

    /// The root of the local download cache.
    pub fn get_cache_directory() -> (r: String)
        ensures
            r@ == "./binance_data/downloads/"@,
    {
        String::from_str("./binance_data/downloads/")
    }

    /// The month and year this locator addresses.
    pub fn get_time(&self) -> (r: (u32, i32))
        ensures
            r == (self.month, self.year),
    {
        (self.month, self.year)
    }

    fn get_local_directory(&self, directory: &str) -> (r: String)
        ensures
            r@ == self.spec_local_directory(directory@),
    {
        let mut s = String::from_str("./binance_data/");
        s.append(directory);
        s.append(self.asset.as_str());
        s.append("USDT/");
        s.append(self.granularity.as_str());
        s.append("/");
        s
    }
}

} // verus!
