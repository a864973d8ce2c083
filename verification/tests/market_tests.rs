use avin::market::Category;
use avin::market::IidCache;
use avin::market::MarketData;
use avin::market::Source;
use avin::market::IID;

fn cache() -> IidCache {
    IidCache::new(
        Source::TINKOFF,
        Category::SHARE,
        vec![
            IID::new("MOEX", "SHARE", "GAZP", "BBG004730RP0"),
            IID::new("MOEX", "SHARE", "SBER", "BBG004730N88"),
            IID::new("MOEX", "SHARE", "SBER", "DUPLICATE"),
        ],
    )
}

#[test]
fn market_data_names() {
    assert_eq!(MarketData::BAR_1M.name(), "BAR_1M");
    assert_eq!(MarketData::BAR_10M.name(), "BAR_10M");
    assert_eq!(MarketData::BAR_1H.name(), "BAR_1H");
    assert_eq!(MarketData::BAR_D.name(), "BAR_D");
    assert_eq!(MarketData::BAR_W.name(), "BAR_W");
    assert_eq!(MarketData::BAR_M.name(), "BAR_M");
    assert_eq!(Source::MOEX.name(), "MOEX");
    assert_eq!(Source::TINKOFF.name(), "TINKOFF");
    assert_eq!(Source::CONVERTER.name(), "CONVERTER");
    assert_eq!(Category::SHARE.name(), "SHARE");
}

#[test]
fn market_iid_text_and_path() {
    let iid = IID::new("MOEX", "SHARE", "SBER", "BBG004730N88");
    assert_eq!(iid.to_text(), "MOEX_SHARE_SBER");
    assert_eq!(iid.path(), "MOEX/SHARE/SBER");
    assert_eq!(iid.exchange(), "MOEX");
    assert_eq!(iid.category(), "SHARE");
    assert_eq!(iid.ticker(), "SBER");
    assert_eq!(iid.figi(), "BBG004730N88");
    assert_eq!(iid.duplicate().to_text(), "MOEX_SHARE_SBER");
}

#[test]
fn market_cache_find_first_match() {
    let c = cache();
    let found = c.find("MOEX", "SHARE", "SBER").unwrap();
    assert_eq!(found.figi(), "BBG004730N88");
    assert!(c.find("MOEX", "SHARE", "sber").is_none());
    assert!(c.find("MOEX", "BOND", "SBER").is_none());
    assert!(IidCache::new(Source::MOEX, Category::SHARE, vec![]).find("MOEX", "SHARE", "SBER").is_none());
}

#[test]
fn market_cache_find_figi() {
    let c = cache();
    assert_eq!(c.find_figi("BBG004730RP0").unwrap().ticker(), "GAZP");
    assert!(c.find_figi("NOPE").is_none());
}
