//! The archive locator: one asset, one granularity, one month.
//!
//! A locator knows the archive's file name, its download URL, the
//! local cache paths, and the granularity's millisecond factor.
//! Construction fails on an unsupported granularity — a configuration
//! defect, caught before any network or file work is attempted.

use vstd::prelude::*;
use crate::input::spec_ts_factor;
use crate::input::ts_factor_of;
use crate::utils::errors::ScrapperError;
use crate::utils::month_year::MonthYear;
use crate::utils::text::dec_chars_signed;
use crate::utils::text::i32_to_string;

verus! {

pub struct AssetFile {
    pub asset: String,
    pub granularity: String,
    pub month_year: MonthYear,
    pub ts_factor: u64,
}

impl AssetFile {
    /// The factor always comes from the platform's table, and the
    /// month is a real month.
    pub open spec fn wf(self) -> bool {
        &&& spec_ts_factor(self.granularity@) == Option::Some(self.ts_factor)
        &&& self.month_year.wf()
    }

    /// The archive's base file name:
    /// `{asset}USDT-{granularity}-{year}-{month}`.
    pub open spec fn spec_file_name(self) -> Seq<char> {
        self.asset@ + "USDT-"@ + self.granularity@ + "-"@ + dec_chars_signed(
            self.month_year.year as int,
        ) + "-"@ + self.month_year.spec_month_chars()
    }

    /// The directory the archive is cached in.
    pub open spec fn spec_download_directory(self) -> Seq<char> {
        "./binance_data/downloads/"@ + self.granularity@ + "/"@ + self.asset@ + "USDT/"@
    }

    /// The directory extracted output goes to.
    pub open spec fn spec_extract_directory(self) -> Seq<char> {
        "./binance_data/output/"@ + self.granularity@ + "/"@
    }

    /// The path of the asset's accumulated result file.
    pub open spec fn spec_result_file_path(self) -> Seq<char> {
        "./binance_data/output/"@ + self.granularity@ + "/"@ + self.asset@ + "USDT.bin"@
    }

    /// The remote address of the archive object.
    pub open spec fn spec_download_url(self, extension: Seq<char>) -> Seq<char> {
        "https://data.binance.vision/data/spot/monthly/klines/"@ + self.asset@ + "USDT/"@
            + self.granularity@ + "/"@ + self.spec_file_name() + extension
    }

    /// Builds the locator; fails exactly when the granularity is not
    /// in the platform's table.
    pub fn new(asset: &str, granularity: &str, month_year: MonthYear) -> (r: Result<
        AssetFile,
        ScrapperError,
    >)
        requires
            month_year.wf(),
        ensures
            match r {
                Ok(af) => {
                    &&& spec_ts_factor(granularity@) == Option::Some(af.ts_factor)
                    &&& af.asset@ == asset@
                    &&& af.granularity@ == granularity@
                    &&& af.month_year == month_year
                    &&& af.wf()
                },
                Err(e) => spec_ts_factor(granularity@) is None && e is ConfigError,
            },
    {
        match ts_factor_of(granularity) {
            Option::Some(ts_factor) => Ok(
                AssetFile {
                    asset: asset.to_owned(),
                    granularity: granularity.to_owned(),
                    month_year,
                    ts_factor,
                },
            ),
            Option::None => Err(
                ScrapperError::ConfigError(
                    String::from_str(
                        "Couldn't define a timestamp factor for your granularity",
                    ),
                ),
            ),
        }
    }

    /// `{asset}USDT-{granularity}-{year}-{month}`, the base of every
    /// path and URL of this archive.
    pub fn get_file_name(&self) -> (r: String)
        requires
            self.month_year.wf(),
        ensures
            r@ == self.spec_file_name(),
    {
        let mut s = self.asset.clone();
        s.append("USDT-");
        s.append(self.granularity.as_str());
        s.append("-");
        s.append(i32_to_string(self.month_year.get_year()).as_str());
        s.append("-");
        s.append(self.month_year.get_month_string().as_str());
        s
    }

    /// Where the archive and its checksum file are cached.
    pub fn get_download_directory(&self) -> (r: String)
        ensures
            r@ == self.spec_download_directory(),
    {
        let mut s = String::from_str("./binance_data/downloads/");
        s.append(self.granularity.as_str());
        s.append("/");
        s.append(self.asset.as_str());
        s.append("USDT/");
        s
    }

    /// Where extracted output for this granularity goes.
    pub fn get_extract_directory(&self) -> (r: String)
        ensures
            r@ == self.spec_extract_directory(),
    {
        let mut s = String::from_str("./binance_data/output/");
        s.append(self.granularity.as_str());
        s.append("/");
        s
    }

    /// The asset's accumulated result file.
    pub fn get_result_file_path(&self) -> (r: String)
        ensures
            r@ == self.spec_result_file_path(),
    {
        Self::get_result_file_path_from_values(self.granularity.as_str(), self.asset.as_str())
    }

    /// The result file for the given granularity and asset.
    pub fn get_result_file_path_from_values(granularity: &str, asset: &str) -> (r: String)
        ensures
            r@ == "./binance_data/output/"@ + granularity@ + "/"@ + asset@ + "USDT.bin"@,
    {
        let mut s = String::from_str("./binance_data/output/");
        s.append(granularity);
        s.append("/");
        s.append(asset);
        s.append("USDT.bin");
        s
    }

    /// The file name with `extension` appended.
    pub fn get_full_file_name(&self, extension: &str) -> (r: String)
        requires
            self.month_year.wf(),
        ensures
            r@ == self.spec_file_name() + extension@,
    {
        let mut s = self.get_file_name();
        s.append(extension);
        s
    }

    /// The remote address of the archive object with `extension`.
    pub fn get_download_url(&self, extension: &str) -> (r: String)
        requires
            self.month_year.wf(),
        ensures
            r@ == self.spec_download_url(extension@),
    {
        let mut s = String::from_str("https://data.binance.vision/data/spot/monthly/klines/");
        s.append(self.asset.as_str());
        s.append("USDT/");
        s.append(self.granularity.as_str());
        s.append("/");
        s.append(self.get_full_file_name(extension).as_str());
        proof {
            assert(s@ =~= self.spec_download_url(extension@));
        }
        s
    }

    /// The millisecond delta between two consecutive records.
    pub fn get_ts_factor(&self) -> (r: u64)
        ensures
            r == self.ts_factor,
    {
        self.ts_factor
    }
}

} // verus!
