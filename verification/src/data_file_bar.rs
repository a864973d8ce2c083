//! One year of bars of one instrument and kind of data, as stored in a file.

use crate::market::DataError;
use crate::market::MarketData;
use crate::market::IID;
use crate::text::decimal;
use crate::text::lemma_decimal_plain;
use crate::text::lemma_last_dot;
use crate::text::lemma_leading_white;
use crate::text::lemma_parse_decimal;
use crate::text::lemma_trailing_white;
use crate::text::file_stem;
use crate::text::parse_i32;
use crate::text::parse_i32_text;
use crate::text::push_decimal;
use crate::text::stem;
use crate::text::trim;
use crate::text::trimmed;
use polars::prelude::DataFrame;
use vstd::prelude::*;

verus! {

/// Where the bars of `iid` of kind `market_data` for `year` are stored,
/// relative to the data directory: `{iid path}/{kind}/{year}.pqt`.
pub open spec fn data_file_path(iid: IID, market_data: MarketData, year: int) -> Seq<char> {
    iid.spec_path() + "/"@ + market_data.spec_name() + "/"@ + decimal(year) + ".pqt"@
}

/// What `NotFound` says of a request: the instrument and the kind of data.
pub open spec fn request_text(iid: IID, market_data: MarketData) -> Seq<char> {
    iid.spec_text() + " "@ + market_data.spec_name()
}

/// The year that a data file's name gives: its stem without surrounding white
/// space, read as an integer.
pub open spec fn file_year(name: Seq<char>) -> Option<i32> {
    parse_i32(trimmed(file_stem(name)))
}

/// The name of a data file, the last part of its path, gives its year back:
/// the file of `year` is named `{year}.pqt`, and that name reads as `year`.
pub proof fn lemma_file_name_gives_year(year: i32)
    ensures
        file_year(decimal(year as int) + ".pqt"@) == Some(year),
{
    reveal_strlit(".pqt");
    let d = decimal(year as int);
    let name = d + ".pqt"@;
    lemma_decimal_plain(year);
    lemma_parse_decimal(year);
    assert(name[d.len() as int] == '.');
    assert forall|j: int| d.len() < j < name.len() implies name[j] != '.' by {}
    lemma_last_dot(name, d.len() as int);
    assert(name.len() > 2);
    assert(name != seq!['.', '.']);
    assert(file_stem(name) =~= d);
    lemma_leading_white(d, 0);
    lemma_trailing_white(d, 0);
    assert(trimmed(d) =~= d);
}

/// Files named by their years, `{year}.pqt`, give their years back; distinct
/// names give distinct years; and the path of each year's file ends in the
/// file's name after its directory.
pub proof fn lemma_year_files(iid: IID, md: MarketData, names: Seq<Seq<char>>, years: Seq<i32>)
    requires
        names.len() == years.len(),
        forall|i: int| 0 <= i < names.len() ==> #[trigger] names[i] == decimal(years[i] as int) + ".pqt"@,
        forall|i: int, j: int| 0 <= i < j < names.len() ==> names[i] != names[j],
    ensures
        forall|i: int| 0 <= i < names.len() ==> #[trigger] file_year(names[i]) == Some(years[i]),
        forall|i: int, j: int| 0 <= i < j < names.len() ==> years[i] != years[j],
        forall|i: int|
            0 <= i < names.len() ==> #[trigger] data_file_path(iid, md, years[i] as int) == iid.spec_path()
                + "/"@ + md.spec_name() + "/"@ + names[i],
{
    assert forall|i: int| 0 <= i < names.len() implies #[trigger] file_year(names[i]) == Some(years[i]) by {
        lemma_file_name_gives_year(years[i]);
    }
    assert forall|i: int, j: int| 0 <= i < j < names.len() implies years[i] != years[j] by {
        if years[i] == years[j] {
            assert(names[i] == names[j]);
        }
    }
    assert forall|i: int|
        0 <= i < names.len() implies #[trigger] data_file_path(iid, md, years[i] as int) == iid.spec_path()
            + "/"@ + md.spec_name() + "/"@ + names[i] by {
        assert(data_file_path(iid, md, years[i] as int) =~= iid.spec_path() + "/"@ + md.spec_name()
            + "/"@ + names[i]);
    }
}

/// One year of bars of one instrument and kind of data.
#[derive(Debug)]
pub struct DataFileBar {
    pub iid: IID,
    pub market_data: MarketData,
    pub data: DataFrame,
    pub year: i32,
}

/// The text of `NotFound` for a request of `iid` and `market_data`.
pub fn request_not_found(iid: &IID, market_data: &MarketData) -> (r: DataError)
    ensures
        r matches DataError::NotFound(m) && m@ == request_text(*iid, *market_data),
{
    let mut msg = iid.to_text();
    msg.append(" ");
    msg.append(market_data.name());
    DataError::NotFound(msg)
}

impl DataFileBar {
    /// The path of a data file, relative to the data directory.
    pub fn file_path(iid: &IID, market_data: &MarketData, year: i32) -> (r: String)
        ensures
            r@ == data_file_path(*iid, *market_data, year as int),
    {
        let mut path = iid.path();
        path.append("/");
        path.append(market_data.name());
        path.append("/");
        push_decimal(&mut path, year);
        path.append(".pqt");
        path
    }

    /// Where this file is stored, relative to the data directory.
    pub fn path(&self) -> (r: String)
        ensures
            r@ == data_file_path(self.iid, self.market_data, self.year as int),
    {
        Self::file_path(&self.iid, &self.market_data, self.year)
    }

    pub fn new(iid: &IID, market_data: MarketData, data: DataFrame, year: i32) -> (r: Result<
        DataFileBar,
        &'static str,
    >)
        ensures
            r matches Ok(f) && f.iid == *iid && f.market_data == market_data && f.data == data
                && f.year == year,
    {
        let data_file = DataFileBar { iid: iid.duplicate(), market_data, data, year };
        Ok(data_file)
    }

    /// The bars of one year, from what is stored at its path: `stored` is
    /// `None` where no file is there, else what reading it gave (the reason
    /// of a failure as text).
    pub fn load(
        iid: &IID,
        market_data: &MarketData,
        year: i32,
        stored: Option<Result<DataFrame, String>>,
    ) -> (r: Result<DataFrame, DataError>)
        ensures
            match stored {
                None => r matches Err(DataError::NotFound(m)) && m@ == request_text(
                    *iid,
                    *market_data,
                ),
                Some(Err(why)) => r matches Err(DataError::ReadError(m)) && m@ == "read "@
                    + data_file_path(*iid, *market_data, year as int) + " - "@ + why@,
                Some(Ok(df)) => r == Ok::<DataFrame, DataError>(df),
            },
    {
        match stored {
            None => Err(request_not_found(iid, market_data)),
            Some(Err(why)) => {
                let mut msg = String::from_str("read ");
                let path = Self::file_path(iid, market_data, year);
                msg.append(path.as_str());
                msg.append(" - ");
                msg.append(why.as_str());
                Err(DataError::ReadError(msg))
            },
            Some(Ok(df)) => Ok(df),
        }
    }

    /// The year that a data file's name gives, if it gives one.
    pub fn year_of_file(name: &str) -> (r: Option<i32>)
        ensures
            r == file_year(name@),
    {
        parse_i32_text(trim(stem(name)))
    }

    /// All stored years of an instrument and kind of data, from the files of
    /// its directory: each file's name and the bars read from it.
    pub fn request_all(iid: &IID, market_data: &MarketData, files: Vec<(String, DataFrame)>) -> (r:
        Result<Vec<DataFileBar>, &'static str>)
        requires
            forall|i: int| 0 <= i < files@.len() ==> (#[trigger] file_year(files@[i].0@)) is Some,
        ensures
            r matches Ok(v) && v@.len() == files@.len() && forall|i: int|
                0 <= i < v@.len() ==> {
                    &&& (#[trigger] v@[i]).iid == *iid
                    &&& v@[i].market_data == *market_data
                    &&& v@[i].data == files@[i].1
                    &&& Some(v@[i].year) == file_year(files@[i].0@)
                },
    {
        let ghost given = files@;
        let mut all: Vec<DataFileBar> = Vec::new();
        let mut rest = files;
        while rest.len() > 0
            invariant
                all@.len() + rest@.len() == given.len(),
                rest@ == given.subrange(all@.len() as int, given.len() as int),
                forall|i: int| 0 <= i < given.len() ==> (#[trigger] file_year(given[i].0@)) is Some,
                forall|i: int|
                    0 <= i < all@.len() ==> {
                        &&& (#[trigger] all@[i]).iid == *iid
                        &&& all@[i].market_data == *market_data
                        &&& all@[i].data == given[i].1
                        &&& Some(all@[i].year) == file_year(given[i].0@)
                    },
            decreases rest@.len(),
        {
            let ghost k = all@.len() as int;
            let (name, df) = rest.remove(0);
            assert(name == given[k].0 && df == given[k].1);
            let year = Self::year_of_file(name.as_str());
            assert(file_year(given[k].0@) is Some);
            let year = year.unwrap();
            let data_file = Self::new(iid, *market_data, df, year).unwrap();
            all.push(data_file);
            assert(rest@ =~= given.subrange(all@.len() as int, given.len() as int));
        }
        Ok(all)
    }
}

} // verus!
