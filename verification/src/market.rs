//! Instruments, kinds of market data, data sources and the instrument cache.

use vstd::prelude::*;

verus! {

/// The kinds of bar data kept for an instrument, one file set each.
#[allow(non_camel_case_types)]
#[derive(Clone, Copy, Debug, PartialEq, Eq, Structural)]
pub enum MarketData {
    BAR_1M,
    BAR_10M,
    BAR_1H,
    BAR_D,
    BAR_W,
    BAR_M,
}

impl MarketData {
    /// The name of this kind of data, which is also its directory name.
    pub open spec fn spec_name(self) -> Seq<char> {
        match self {
            MarketData::BAR_1M => "BAR_1M"@,
            MarketData::BAR_10M => "BAR_10M"@,
            MarketData::BAR_1H => "BAR_1H"@,
            MarketData::BAR_D => "BAR_D"@,
            MarketData::BAR_W => "BAR_W"@,
            MarketData::BAR_M => "BAR_M"@,
        }
    }

    pub fn name(&self) -> (r: &'static str)
        ensures
            r@ == self.spec_name(),
    {
        match self {
            MarketData::BAR_1M => "BAR_1M",
            MarketData::BAR_10M => "BAR_10M",
            MarketData::BAR_1H => "BAR_1H",
            MarketData::BAR_D => "BAR_D",
            MarketData::BAR_W => "BAR_W",
            MarketData::BAR_M => "BAR_M",
        }
    }
}

/// Where instrument lists and bars come from.
#[allow(non_camel_case_types)]
#[derive(Clone, Copy, Debug, PartialEq, Eq, Structural)]
pub enum Source {
    MOEX,
    TINKOFF,
    CONVERTER,
}

impl Source {
    pub open spec fn spec_name(self) -> Seq<char> {
        match self {
            Source::MOEX => "MOEX"@,
            Source::TINKOFF => "TINKOFF"@,
            Source::CONVERTER => "CONVERTER"@,
        }
    }

    pub fn name(&self) -> (r: &'static str)
        ensures
            r@ == self.spec_name(),
    {
        match self {
            Source::MOEX => "MOEX",
            Source::TINKOFF => "TINKOFF",
            Source::CONVERTER => "CONVERTER",
        }
    }
}

/// The category of an instrument.
#[allow(non_camel_case_types)]
#[derive(Clone, Copy, Debug, PartialEq, Eq, Structural)]
pub enum Category {
    SHARE,
}

impl Category {
    pub open spec fn spec_name(self) -> Seq<char> {
        match self {
            Category::SHARE => "SHARE"@,
        }
    }

    pub fn name(&self) -> (r: &'static str)
        ensures
            r@ == self.spec_name(),
    {
        match self {
            Category::SHARE => "SHARE",
        }
    }
}

/// Errors of reading stored market data.
#[derive(Debug)]
pub enum DataError {
    /// No data is stored for the request; the text names what was asked.
    NotFound(String),
    /// Stored data could not be read; the text says where and why.
    ReadError(String),
}

/// An instrument identifier: the exchange, category and ticker that name an
/// instrument, and its FIGI.
#[derive(Debug)]
pub struct IID {
    exchange: String,
    category: String,
    ticker: String,
    figi: String,
}

/// `a`, `b` and `c` joined by `sep`.
pub open spec fn join3(a: Seq<char>, b: Seq<char>, c: Seq<char>, sep: Seq<char>) -> Seq<char> {
    a + sep + b + sep + c
}

impl IID {
    pub closed spec fn spec_exchange(self) -> Seq<char> {
        self.exchange@
    }

    pub closed spec fn spec_category(self) -> Seq<char> {
        self.category@
    }

    pub closed spec fn spec_ticker(self) -> Seq<char> {
        self.ticker@
    }

    pub closed spec fn spec_figi(self) -> Seq<char> {
        self.figi@
    }

    /// The text of an identifier: exchange, category and ticker joined by `_`.
    pub open spec fn spec_text(self) -> Seq<char> {
        join3(self.spec_exchange(), self.spec_category(), self.spec_ticker(), "_"@)
    }

    /// Where the data of an instrument is kept, relative to the data
    /// directory: its exchange, category and ticker as nested directories.
    pub open spec fn spec_path(self) -> Seq<char> {
        join3(self.spec_exchange(), self.spec_category(), self.spec_ticker(), "/"@)
    }

    pub fn new(exchange: &str, category: &str, ticker: &str, figi: &str) -> (r: Self)
        ensures
            r.spec_exchange() == exchange@,
            r.spec_category() == category@,
            r.spec_ticker() == ticker@,
            r.spec_figi() == figi@,
    {
        IID {
            exchange: exchange.to_owned(),
            category: category.to_owned(),
            ticker: ticker.to_owned(),
            figi: figi.to_owned(),
        }
    }

    pub fn exchange(&self) -> (r: &str)
        ensures
            r@ == self.spec_exchange(),
    {
        self.exchange.as_str()
    }

    pub fn category(&self) -> (r: &str)
        ensures
            r@ == self.spec_category(),
    {
        self.category.as_str()
    }

    pub fn ticker(&self) -> (r: &str)
        ensures
            r@ == self.spec_ticker(),
    {
        self.ticker.as_str()
    }

    pub fn figi(&self) -> (r: &str)
        ensures
            r@ == self.spec_figi(),
    {
        self.figi.as_str()
    }

    /// The identifier as text, such as `MOEX_SHARE_SBER`.
    pub fn to_text(&self) -> (r: String)
        ensures
            r@ == self.spec_text(),
    {
        let mut r = self.exchange.clone();
        r.append("_");
        r.append(self.category.as_str());
        r.append("_");
        r.append(self.ticker.as_str());
        r
    }

    /// The instrument's data directory, relative to the data root.
    pub fn path(&self) -> (r: String)
        ensures
            r@ == self.spec_path(),
    {
        let mut r = self.exchange.clone();
        r.append("/");
        r.append(self.category.as_str());
        r.append("/");
        r.append(self.ticker.as_str());
        r
    }

    /// A copy of this identifier.
    pub fn duplicate(&self) -> (r: Self)
        ensures
            r == *self,
    {
        IID {
            exchange: self.exchange.clone(),
            category: self.category.clone(),
            ticker: self.ticker.clone(),
            figi: self.figi.clone(),
        }
    }
}

/// The instruments that a source offers in a category.
pub struct IidCache {
    pub source: Source,
    pub category: Category,
    pub iids: Vec<IID>,
}

/// The first identifier of `iids` with this exchange, category and ticker.
pub open spec fn find_iid(
    iids: Seq<IID>,
    exchange: Seq<char>,
    category: Seq<char>,
    ticker: Seq<char>,
) -> Option<IID>
    decreases iids.len(),
{
    if iids.len() == 0 {
        None
    } else if iid_matches(iids[0], exchange, category, ticker) {
        Some(iids[0])
    } else {
        find_iid(iids.drop_first(), exchange, category, ticker)
    }
}

/// The first identifier of `iids` with this FIGI.
pub open spec fn find_figi_in(iids: Seq<IID>, figi: Seq<char>) -> Option<IID>
    decreases iids.len(),
{
    if iids.len() == 0 {
        None
    } else if iids[0].spec_figi() == figi {
        Some(iids[0])
    } else {
        find_figi_in(iids.drop_first(), figi)
    }
}

/// Whether `iid` has this exchange, category and ticker.
pub open spec fn iid_matches(
    iid: IID,
    exchange: Seq<char>,
    category: Seq<char>,
    ticker: Seq<char>,
) -> bool {
    iid.spec_exchange() == exchange && iid.spec_category() == category && iid.spec_ticker()
        == ticker
}

/// Looking an instrument up by exchange, category and ticker finds only a
/// cached instrument with that very exchange, category and ticker, the first
/// such one; it finds nothing exactly when no cached instrument has all three.
/// An instrument of another exchange, or of another category, is never found.
pub proof fn lemma_find_iid_exact(
    iids: Seq<IID>,
    exchange: Seq<char>,
    category: Seq<char>,
    ticker: Seq<char>,
)
    ensures
        find_iid(iids, exchange, category, ticker) matches Some(x) ==> x.spec_exchange() == exchange
            && x.spec_category() == category && x.spec_ticker() == ticker && exists|i: int|
            0 <= i < iids.len() && iids[i] == x && forall|j: int|
                0 <= j < i ==> !(iids[j].spec_exchange() == exchange && iids[j].spec_category()
                    == category && iids[j].spec_ticker() == ticker),
        find_iid(iids, exchange, category, ticker) is None <==> forall|i: int|
            0 <= i < iids.len() ==> !((#[trigger] iids[i]).spec_exchange() == exchange
                && iids[i].spec_category() == category && iids[i].spec_ticker() == ticker),
    decreases iids.len(),
{
    if iids.len() > 0 {
        let rest = iids.drop_first();
        lemma_find_iid_exact(rest, exchange, category, ticker);
        if iid_matches(iids[0], exchange, category, ticker) {
            assert(iids[0] == iids[0]);
        } else {
            assert forall|i: int| 0 < i < iids.len() implies iids[i] == rest[i - 1] by {}
            if let Some(x) = find_iid(rest, exchange, category, ticker) {
                let i = choose|i: int|
                    0 <= i < rest.len() && rest[i] == x && forall|j: int|
                        0 <= j < i ==> !(rest[j].spec_exchange() == exchange && rest[j].spec_category()
                            == category && rest[j].spec_ticker() == ticker);
                assert(iids[i + 1] == x);
                assert forall|j: int| 0 <= j < i + 1 implies !(iids[j].spec_exchange() == exchange
                    && iids[j].spec_category() == category && iids[j].spec_ticker() == ticker) by {
                    if j > 0 {
                        assert(iids[j] == rest[j - 1]);
                    }
                }
            } else {
                assert forall|i: int| 0 <= i < iids.len() implies !((#[trigger] iids[i]).spec_exchange()
                    == exchange && iids[i].spec_category() == category && iids[i].spec_ticker()
                    == ticker) by {
                    if i > 0 {
                        assert(iids[i] == rest[i - 1]);
                    }
                }
            }
        }
    }
}

impl IidCache {
    pub fn new(source: Source, category: Category, iids: Vec<IID>) -> (r: Self)
        ensures
            r.source == source,
            r.category == category,
            r.iids@ == iids@,
    {
        IidCache { source, category, iids }
    }

    /// The first cached instrument with this exchange, category and ticker.
    pub fn find(&self, exchange: &str, category: &str, ticker: &str) -> (r: Option<IID>)
        ensures
            r == find_iid(self.iids@, exchange@, category@, ticker@),
            r matches Some(x) ==> x.spec_exchange() == exchange@ && x.spec_category() == category@
                && x.spec_ticker() == ticker@ && self.iids@.contains(x),
            r is None <==> forall|i: int|
                0 <= i < self.iids@.len() ==> !((#[trigger] self.iids@[i]).spec_exchange()
                    == exchange@ && self.iids@[i].spec_category() == category@
                    && self.iids@[i].spec_ticker() == ticker@),
    {
        proof {
            lemma_find_iid_exact(self.iids@, exchange@, category@, ticker@);
        }
        let mut i: usize = 0;
        assert(self.iids@.subrange(0, self.iids@.len() as int) =~= self.iids@);
        while i < self.iids.len()
            invariant
                0 <= i <= self.iids@.len(),
                find_iid(self.iids@, exchange@, category@, ticker@) == find_iid(
                    self.iids@.subrange(i as int, self.iids@.len() as int),
                    exchange@,
                    category@,
                    ticker@,
                ),
            decreases self.iids@.len() - i,
        {
            let iid = &self.iids[i];
            let ghost rest = self.iids@.subrange(i as int, self.iids@.len() as int);
            assert(rest.drop_first() =~= self.iids@.subrange(i + 1, self.iids@.len() as int));
            if str_eq(iid.exchange(), exchange) && str_eq(iid.category(), category) && str_eq(
                iid.ticker(),
                ticker,
            ) {
                return Some(iid.duplicate());
            }
            i = i + 1;
        }
        None
    }

    /// The first cached instrument with this FIGI.
    pub fn find_figi(&self, figi: &str) -> (r: Option<IID>)
        ensures
            r == find_figi_in(self.iids@, figi@),
    {
        let mut i: usize = 0;
        assert(self.iids@.subrange(0, self.iids@.len() as int) =~= self.iids@);
        while i < self.iids.len()
            invariant
                0 <= i <= self.iids@.len(),
                find_figi_in(self.iids@, figi@) == find_figi_in(
                    self.iids@.subrange(i as int, self.iids@.len() as int),
                    figi@,
                ),
            decreases self.iids@.len() - i,
        {
            let iid = &self.iids[i];
            let ghost rest = self.iids@.subrange(i as int, self.iids@.len() as int);
            assert(rest.drop_first() =~= self.iids@.subrange(i + 1, self.iids@.len() as int));
            if str_eq(iid.figi(), figi) {
                return Some(iid.duplicate());
            }
            i = i + 1;
        }
        None
    }
}

/// Whether two strings hold the same characters.
pub(crate) fn str_eq(a: &str, b: &str) -> (r: bool)
    ensures
        r == (a@ == b@),
{
    let n = a.unicode_len();
    if n != b.unicode_len() {
        return false;
    }
    let mut i: usize = 0;
    while i < n
        invariant
            n == a@.len(),
            n == b@.len(),
            0 <= i <= n,
            forall|j: int| 0 <= j < i ==> a@[j] == b@[j],
        decreases n - i,
    {
        if a.get_char(i) != b.get_char(i) {
            return false;
        }
        i = i + 1;
    }
    assert(a@ =~= b@);
    true
}

} // verus!
