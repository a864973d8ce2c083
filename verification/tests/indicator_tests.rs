use avin::indicator::Bar;
use avin::indicator::ExtremumData;
use avin::indicator::Indicator;

fn bar(ts_nanos: i64) -> Bar {
    Bar { ts_nanos, volume: 10 }
}

fn times(ind: &Indicator) -> Vec<i64> {
    ind.bars().iter().map(|b| b.ts_nanos).collect()
}

#[test]
fn indicator_id_and_name() {
    let ind = Indicator::Extremum(ExtremumData::new());
    assert_eq!(ind.id(), "Extremum");
    assert_eq!(ind.name(), "Extremum");
}

#[test]
fn indicator_init_holds_given_bars() {
    let mut ind = Indicator::Extremum(ExtremumData::new());
    ind.init(&[bar(1), bar(2), bar(3)]);
    assert_eq!(times(&ind), vec![1, 2, 3]);
    ind.init(&[bar(7)]);
    assert_eq!(times(&ind), vec![7]);
    assert_eq!(ind.id(), "Extremum");
}

#[test]
fn indicator_update_takes_only_newer_bars() {
    let mut ind = Indicator::Extremum(ExtremumData::new());
    ind.init(&[bar(1), bar(2)]);
    ind.update(&[bar(1), bar(2), bar(3), bar(4)]);
    assert_eq!(times(&ind), vec![1, 2, 3, 4]);
    ind.update(&[bar(0), bar(4), bar(5)]);
    assert_eq!(times(&ind), vec![1, 2, 3, 4, 5]);
}

#[test]
fn indicator_update_on_empty_takes_all() {
    let mut ind = Indicator::Extremum(ExtremumData::new());
    ind.update(&[bar(5), bar(3)]);
    assert_eq!(times(&ind), vec![5, 3]);
}

#[test]
fn indicator_update_continues_init() {
    let a = [bar(1), bar(2)];
    let ab = [bar(1), bar(2), bar(3), bar(4)];
    let mut x = Indicator::Extremum(ExtremumData::new());
    x.init(&a);
    x.update(&ab);
    let mut y = Indicator::Extremum(ExtremumData::new());
    y.init(&ab);
    assert_eq!(times(&x), times(&y));
}

#[test]
fn indicator_update_twice_is_once() {
    let bars = [bar(10), bar(20), bar(30)];
    let mut x = Indicator::Extremum(ExtremumData::new());
    x.init(&[bar(5), bar(10)]);
    x.update(&bars);
    let once = times(&x);
    x.update(&bars);
    assert_eq!(times(&x), once);
    assert_eq!(once, vec![5, 10, 20, 30]);
}
