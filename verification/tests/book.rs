use bigdecimal::num_bigint::BigInt;
use bigdecimal::{BigDecimal, FromPrimitive, ToPrimitive};
use orderbook::book::{OrderBook, OrderType};
use orderbook::decimal::Decimal;
use orderbook::ladder::Ladder;
use orderbook::level::Level;
use orderbook::messages::{BookInfo, LevelUpdate, PriceLevel, Side, SnapshotMessage};
use orderbook::snapshot::SnapshotLevel;
use std::str::FromStr;

fn wrap(value: BigDecimal) -> Decimal {
    let (digits, scale) = value.into_bigint_and_exponent();
    Decimal::new(digits.to_signed_bytes_be(), scale)
}

fn dec(s: &str) -> Decimal {
    wrap(BigDecimal::from_str(s).unwrap())
}

fn from_float(x: f64) -> Decimal {
    wrap(BigDecimal::from_f64(x).unwrap_or_default())
}

fn to_float(value: &Decimal) -> f64 {
    BigDecimal::new(BigInt::from_signed_bytes_be(&value.digits), value.scale).to_f64().unwrap()
}

fn create_asks(book: &mut OrderBook) {
    for price in 100..200 {
        let sequence = book.sequence + 1;
        book.add_level(OrderType::Ask, from_float(price as f64), from_float(price as f64), sequence);
    }
}

fn create_bids(book: &mut OrderBook) {
    for price in 1..100 {
        let sequence = book.sequence + 1;
        book.add_level(OrderType::Bid, from_float(price as f64), from_float(price as f64), sequence);
    }
}

fn get_first_ask_and_bid(book: &OrderBook) -> ((f64, f64), (f64, f64)) {
    let ask = &book.asks.levels[0];
    let bid = &book.bids.levels[book.bids.levels.len() - 1];
    (
        (to_float(&ask.price), to_float(&ask.size)),
        (to_float(&bid.price), to_float(&bid.size)),
    )
}

fn sum_of_sizes(ladder: &Ladder) -> Decimal {
    let mut total = Decimal::zero();
    for level in &ladder.levels {
        total = total.plus(&level.size);
    }
    total
}

fn sum_of_values(ladder: &Ladder) -> Decimal {
    let mut total = Decimal::zero();
    for level in &ladder.levels {
        total = total.plus(&level.price.times(&level.size));
    }
    total
}

fn totals_hold(book: &OrderBook) -> bool {
    book.bids_total.same(&sum_of_sizes(&book.bids))
        && book.asks_total.same(&sum_of_sizes(&book.asks))
        && book.bids_value_total.same(&sum_of_values(&book.bids))
        && book.asks_value_total.same(&sum_of_values(&book.asks))
}

fn buckets_hold(book: &OrderBook) -> bool {
    let mut fresh = OrderBook::new("fresh", 0);
    fresh.set_group_size(book.group_size.clone());
    for level in &book.bids.levels {
        fresh.add_level(OrderType::Bid, level.price.clone(), level.size.clone(), 0);
    }
    for level in &book.asks.levels {
        fresh.add_level(OrderType::Ask, level.price.clone(), level.size.clone(), 0);
    }
    fresh.refresh_groupings();
    same_ladder(&fresh.grouped_bids, &book.grouped_bids)
        && same_ladder(&fresh.grouped_asks, &book.grouped_asks)
}

fn same_ladder(a: &Ladder, b: &Ladder) -> bool {
    a.levels.len() == b.levels.len()
        && a.levels.iter().zip(b.levels.iter()).all(|(x, y)| x.price.same(&y.price) && x.size.same(&y.size))
}

fn prices(levels: &[Level]) -> Vec<f64> {
    levels.iter().map(|l| to_float(&l.price)).collect()
}

fn rows(levels: &[SnapshotLevel]) -> Vec<(f64, f64)> {
    levels.iter().map(|l| (to_float(&l.price), to_float(&l.total_size))).collect()
}

fn update(side: Side, price: &str, size: &str, sequence: i32) -> LevelUpdate {
    LevelUpdate {
        exchange: String::new(),
        product_id: String::new(),
        side,
        price: dec(price),
        size: dec(size),
        sequence,
        time: 0,
        count: 0,
    }
}

fn price_level(price: f64, size: f64) -> PriceLevel {
    PriceLevel {
        price: from_float(price),
        total_size: from_float(size),
        total_value: from_float(price * size),
    }
}

#[test]
fn test_create_book() {
    let mut book = OrderBook::new("instrument", 100);
    create_asks(&mut book);
    create_bids(&mut book);
}

#[test]
fn test_grouped_snapshot() {
    let mut book = OrderBook::new("instrument", 100);
    create_asks(&mut book);
    create_bids(&mut book);
}

#[test]
fn test_update_level() {
    let mut book = OrderBook::new("instrument", 100);
    create_asks(&mut book);
    create_bids(&mut book);

    let (first_ask, first_bid) = get_first_ask_and_bid(&book);

    assert_eq!(first_ask.0, 100.0);
    assert_eq!(first_ask.1, 100.0);
    assert_eq!(first_bid.0, 99.0);
    assert_eq!(first_bid.1, 99.0);

    let mut sequence = book.sequence + 1;
    book.add_level(OrderType::Bid, from_float(99.1), from_float(99.1), sequence);
    sequence = book.sequence + 1;
    book.add_level(OrderType::Ask, from_float(99.9), from_float(99.9), sequence);

    let (first_ask, first_bid) = get_first_ask_and_bid(&book);

    assert_eq!(first_ask.0, 99.9);
    assert_eq!(first_ask.1, 99.9);
    assert_eq!(first_bid.0, 99.1);
    assert_eq!(first_bid.1, 99.1);

    sequence = book.sequence + 1;
    book.add_level(OrderType::Bid, from_float(99.1), from_float(99.2), sequence);
    sequence = book.sequence + 1;
    book.add_level(OrderType::Ask, from_float(99.9), from_float(99.8), sequence);

    let (first_ask, first_bid) = get_first_ask_and_bid(&book);

    assert_eq!(first_ask.0, 99.9);
    assert_eq!(first_ask.1, 99.8);
    assert_eq!(first_bid.0, 99.1);
    assert_eq!(first_bid.1, 99.2);

    sequence = book.sequence + 1;
    book.remove_level(OrderType::Bid, from_float(99.1), sequence);
    sequence = book.sequence + 1;
    book.remove_level(OrderType::Ask, from_float(99.9), sequence);

    let (first_ask, first_bid) = get_first_ask_and_bid(&book);

    assert_eq!(first_ask.0, 100.0);
    assert_eq!(first_ask.1, 100.0);
    assert_eq!(first_bid.0, 99.0);
    assert_eq!(first_bid.1, 99.0);
}

#[test]
fn basic_ladder_reaches_sequence_298() {
    let mut book = OrderBook::new("X", 100);
    let mut sequence = book.sequence;
    for price in 100..200 {
        book.add_level(OrderType::Ask, from_float(price as f64), from_float(price as f64), sequence);
        sequence += 1;
    }
    for price in 1..100 {
        book.add_level(OrderType::Bid, from_float(price as f64), from_float(price as f64), sequence);
        sequence += 1;
    }
    assert_eq!(get_first_ask_and_bid(&book), ((100.0, 100.0), (99.0, 99.0)));
    assert_eq!(book.sequence, 298);
    assert_eq!(book.instrument, "X");
    assert_eq!(book.asks.len(), 100);
    assert_eq!(book.bids.len(), 99);
    assert!(book.bids_total.same(&dec("4950")));
    assert!(book.asks_total.same(&dec("14950")));
    assert!(book.bids_value_total.same(&dec("328350")));
    assert!(totals_hold(&book));
    assert!(buckets_hold(&book));
}

#[test]
fn upsert_replaces_the_size_and_keeps_the_totals() {
    let mut book = OrderBook::new("X", 0);
    book.add_level(OrderType::Bid, dec("99.1"), dec("99.1"), 1);
    book.add_level(OrderType::Bid, dec("99.1"), dec("99.2"), 2);
    assert_eq!(book.bids.len(), 1);
    assert!(book.bids.levels[0].size.same(&dec("99.2")));
    assert!(book.bids_total.same(&dec("99.2")));
    assert!(book.bids_value_total.same(&dec("9830.72")));
    assert!(book.grouped_bids.levels[0].price.same(&dec("99")));
    assert!(book.grouped_bids.levels[0].size.same(&dec("99.2")));
    assert!(totals_hold(&book));
    assert!(buckets_hold(&book));
    book.add_level(OrderType::Bid, dec("99.10"), dec("1"), 3);
    assert_eq!(book.bids.len(), 1);
    assert!(book.bids_total.same(&dec("1")));
}

#[test]
fn remove_of_a_missing_price_only_moves_the_sequence() {
    let mut book = OrderBook::new("X", 7);
    book.add_level(OrderType::Ask, dec("10"), dec("2"), 8);
    assert!(book.remove_level(OrderType::Ask, dec("11"), 9));
    assert_eq!(book.sequence, 9);
    assert_eq!(book.asks.len(), 1);
    assert!(book.asks_total.same(&dec("2")));
    assert!(book.remove_level(OrderType::Bid, dec("10"), 10));
    assert_eq!(book.asks.len(), 1);
    assert!(book.remove_level(OrderType::Ask, dec("10.0"), 11));
    assert_eq!(book.asks.len(), 0);
    assert_eq!(book.grouped_asks.len(), 0);
    assert!(book.asks_total.same(&Decimal::zero()));
    assert!(book.asks_value_total.same(&Decimal::zero()));
}

#[test]
fn buckets_follow_the_levels() {
    let mut book = OrderBook::new("X", 0);
    book.set_group_size(dec("0.5"));
    book.add_level(OrderType::Bid, dec("10.1"), dec("1"), 1);
    book.add_level(OrderType::Bid, dec("10.4"), dec("2"), 2);
    book.add_level(OrderType::Bid, dec("10.5"), dec("4"), 3);
    book.add_level(OrderType::Ask, dec("10.6"), dec("8"), 4);
    book.add_level(OrderType::Ask, dec("10.9"), dec("16"), 5);
    book.add_level(OrderType::Ask, dec("11.2"), dec("32"), 6);
    let bid_buckets: Vec<(f64, f64)> =
        book.grouped_bids.levels.iter().map(|l| (to_float(&l.price), to_float(&l.size))).collect();
    let ask_buckets: Vec<(f64, f64)> =
        book.grouped_asks.levels.iter().map(|l| (to_float(&l.price), to_float(&l.size))).collect();
    assert_eq!(bid_buckets, vec![(10.0, 3.0), (10.5, 4.0)]);
    assert_eq!(ask_buckets, vec![(11.0, 24.0), (11.5, 32.0)]);
    book.remove_level(OrderType::Bid, dec("10.5"), 7);
    book.remove_level(OrderType::Ask, dec("10.6"), 8);
    assert_eq!(book.grouped_bids.len(), 1);
    assert!(book.grouped_asks.levels[0].size.same(&dec("16")));
    assert!(buckets_hold(&book));
    book.set_group_size(dec("1"));
    assert_eq!(book.grouped_bids.len(), 1);
    assert!(book.grouped_bids.levels[0].price.same(&dec("10")));
    assert!(book.grouped_asks.levels[0].price.same(&dec("11")));
    assert!(book.grouped_asks.levels[1].price.same(&dec("12")));
    assert!(buckets_hold(&book));
    assert!(totals_hold(&book));
}

#[test]
fn sequence_gap_leaves_the_book_unchanged() {
    let mut book = OrderBook::new("X", 100);
    assert_eq!(book.verify_sequence(105), (true, false));
    assert_eq!(book.verify_sequence(100), (true, true));
    assert_eq!(book.verify_sequence(-1), (true, true));
    assert_eq!(book.verify_sequence(101), (false, false));
    assert!(!book.update_level_message(update(Side::Buy, "5", "1", 105)));
    assert_eq!(book.sequence, 100);
    assert_eq!(book.bids.len(), 0);
    assert!(book.update_level_message(update(Side::Buy, "5", "1", 100)));
    assert_eq!(book.sequence, 100);
    assert_eq!(book.bids.len(), 0);
    assert!(book.update_level_message(update(Side::Buy, "5", "1", 101)));
    assert_eq!(book.sequence, 101);
    assert_eq!(book.bids.len(), 1);
    assert!(book.update_level_message(update(Side::Sell, "6", "2", 102)));
    assert_eq!(book.asks.len(), 1);
    assert!(book.update_level_message(update(Side::Sell, "5", "0", 103)));
    assert_eq!(book.bids.len(), 0);
    assert_eq!(book.asks.len(), 1);
    assert_eq!(book.sequence, 103);
    assert!(totals_hold(&book));
}

#[test]
fn get_levels_reads_from_the_top_down() {
    let mut book = OrderBook::new("X", 100);
    create_asks(&mut book);
    create_bids(&mut book);
    let (bids, asks) = book.get_levels(3);
    assert_eq!(prices(&bids), vec![99.0, 98.0, 97.0]);
    assert_eq!(prices(&asks), vec![102.0, 101.0, 100.0]);
    let (bids, asks) = book.get_levels(1000);
    assert_eq!(bids.len(), 99);
    assert_eq!(asks.len(), 100);
    assert_eq!(to_float(&asks[0].price), 199.0);
    let (bids, asks) = book.get_levels(0);
    assert!(bids.is_empty() && asks.is_empty());
    book.set_group_size(dec("5"));
    let (bids, asks) = book.get_grouped_levels(2);
    assert_eq!(prices(&bids), vec![95.0, 90.0]);
    assert_eq!(prices(&asks), vec![105.0, 100.0]);
    assert!(bids[0].size.same(&dec("485")));
    assert!(bids[0].value.same(&dec("46075")));
    assert!(asks[1].size.same(&dec("100")));
}

#[test]
fn best_prices_and_spread() {
    let mut book = OrderBook::new("X", 0);
    assert!(book.get_best_bid().same(&Decimal::zero()));
    assert!(book.get_best_ask().same(&Decimal::zero()));
    book.add_level(OrderType::Bid, dec("99.5"), dec("1"), 1);
    book.add_level(OrderType::Bid, dec("98"), dec("1"), 2);
    book.add_level(OrderType::Ask, dec("100.25"), dec("1"), 3);
    book.add_level(OrderType::Ask, dec("101"), dec("1"), 4);
    assert!(book.get_best_bid().same(&dec("99.5")));
    assert!(book.get_best_ask().same(&dec("100.25")));
    assert!(book.get_spread().same(&dec("0.75")));
}

#[test]
fn cumulative_value_runs_outwards() {
    let mut book = OrderBook::new("X", 0);
    for (price, size) in [("1", "10"), ("2", "20"), ("3", "30"), ("4", "40")] {
        book.add_level(OrderType::Bid, dec(price), dec(size), 0);
        book.add_level(OrderType::Ask, dec(price), dec(size), 0);
    }
    let bids = book.get_cumulative_value(OrderType::Bid, &dec("2"), &dec("3.5"));
    assert_eq!(rows(&bids), vec![(3.0, 30.0), (2.0, 50.0)]);
    assert!(bids[1].total_value.same(&dec("130")));
    let asks = book.get_cumulative_value(OrderType::Ask, &dec("1.5"), &dec("4"));
    assert_eq!(rows(&asks), vec![(2.0, 20.0), (3.0, 50.0), (4.0, 90.0)]);
    assert!(asks[2].total_value.same(&dec("290")));
    assert_eq!(asks[2].relative_size, 0);
    assert!(book.get_cumulative_value(OrderType::Ask, &dec("5"), &dec("6")).is_empty());
    assert!(book.get_cumulative_value(OrderType::Ask, &dec("2.5"), &dec("2.5")).is_empty());
    assert_eq!(book.get_cumulative_value(OrderType::Bid, &dec("4"), &dec("4")).len(), 1);
}

#[test]
fn heatmap_bins_by_distance_from_mid() {
    let mut book = OrderBook::new("X", 0);
    book.add_level(OrderType::Bid, dec("99"), dec("1"), 0);
    book.add_level(OrderType::Bid, dec("98.5"), dec("2"), 0);
    book.add_level(OrderType::Bid, dec("97"), dec("4"), 0);
    book.add_level(OrderType::Bid, dec("50"), dec("8"), 0);
    book.add_level(OrderType::Ask, dec("101"), dec("16"), 0);
    book.add_level(OrderType::Ask, dec("102.5"), dec("32"), 0);
    book.add_level(OrderType::Ask, dec("103"), dec("64"), 0);
    book.add_level(OrderType::Ask, dec("104"), dec("128"), 0);
    let bins: Vec<f64> =
        book.get_heatmap_snapshot_levels(3, &dec("1")).iter().map(to_float).collect();
    assert_eq!(bins, vec![0.0, 3.0, 0.0, 0.0, 16.0, 32.0]);
    let bins: Vec<f64> =
        book.get_heatmap_snapshot_levels(4, &dec("1")).iter().map(to_float).collect();
    assert_eq!(bins, vec![4.0, 0.0, 3.0, 0.0, 0.0, 16.0, 32.0, 64.0]);
    let none: Vec<f64> =
        book.get_heatmap_snapshot_levels(2, &dec("0")).iter().map(to_float).collect();
    assert_eq!(none, vec![0.0, 0.0, 0.0, 0.0]);
    assert!(book.get_heatmap_snapshot_levels(0, &dec("1")).is_empty());
}

#[test]
fn grouped_snapshot_is_a_window_around_mid() {
    let mut book = OrderBook::new("pair", 41);
    book.set_group_size(from_float(0.5));
    book.add_level(OrderType::Bid, dec("99.7"), dec("1"), 42);
    book.add_level(OrderType::Bid, dec("98.9"), dec("2"), 43);
    book.add_level(OrderType::Ask, dec("100.2"), dec("4"), 44);
    book.add_level(OrderType::Ask, dec("101.4"), dec("8"), 45);
    let snapshot = book.get_grouped_snapshot(4);
    assert_eq!(snapshot.instrument, "pair");
    assert_eq!(snapshot.time, 0);
    assert_eq!(rows(&snapshot.bids), vec![(98.5, 2.0), (99.0, 0.0), (99.5, 1.0), (100.0, 0.0)]);
    assert_eq!(rows(&snapshot.asks), vec![(100.0, 0.0), (100.5, 4.0), (101.0, 0.0), (101.5, 8.0)]);
    assert!(snapshot.cum_ask_values.is_empty() && snapshot.cum_bid_values.is_empty());
    assert!(snapshot.info.bids_total.same(&dec("3")));
    assert!(snapshot.info.asks_total.same(&dec("12")));
    assert!(snapshot.info.bids_value_total.same(&dec("297.5")));
    assert!(snapshot.info.spread.same(&dec("0.5")));
    assert_eq!(snapshot.info.sequence, 45);
    assert!(snapshot.bids.iter().all(|l| l.total_value.same(&Decimal::zero()) && l.relative_size == 0));
    let again = book.get_grouped_snapshot_new(4);
    assert_eq!(rows(&again.bids), rows(&snapshot.bids));
    assert_eq!(rows(&again.asks), rows(&snapshot.asks));
    assert!(book.get_grouped_snapshot(0).bids.is_empty());
}

#[test]
fn snapshot_roundtrip_keeps_levels_and_sequence() {
    let message = SnapshotMessage {
        exchange: 3,
        product_id: String::from("Binance:BTC/USDT"),
        source_sequence: 77,
        time: 5,
        info: BookInfo {
            sequence: 77,
            ask_total_size: from_float(-1.0),
            ask_total_value: from_float(-1.0),
            bid_total_size: from_float(-1.0),
            bid_total_value: from_float(-1.0),
        },
        bids: vec![price_level(9015.85, 0.027722000000000004), price_level(9015.0, 1.5)],
        asks: vec![price_level(9017.78, 0.170818), price_level(9020.0, 2.0)],
    };
    let book = OrderBook::from_snapshot(message);
    assert_eq!(book.instrument, "Binance:BTC/USDT");
    assert_eq!(book.sequence, 77);
    assert!(totals_hold(&book));
    assert!(buckets_hold(&book));
    let encoded = book.to_snapshot(100);
    assert_eq!(encoded.exchange, -1);
    assert_eq!(encoded.time, 100);
    assert_eq!(encoded.source_sequence, 77);
    assert_eq!(encoded.info.sequence, 77);
    assert!(encoded.info.bid_total_size.same(&book.bids_total));
    assert_eq!(to_float(&encoded.bids[0].price), 9015.0);
    assert!(encoded.bids[0].total_value.same(&dec("13522.5")));
    let again = OrderBook::from_snapshot(encoded);
    assert!(same_ladder(&again.bids, &book.bids));
    assert!(same_ladder(&again.asks, &book.asks));
    assert_eq!(again.sequence, book.sequence);
    let ((ask_price, ask_size), (bid_price, bid_size)) = get_first_ask_and_bid(&again);
    assert_eq!(ask_price, 9017.78f64);
    assert_eq!(ask_size, 0.170818f64);
    assert_eq!(bid_price, 9015.85f64);
    assert_eq!(bid_size, 0.027722000000000004f64);
}

#[test]
fn snapshot_with_a_price_twice_keeps_the_later_level() {
    let message = SnapshotMessage {
        exchange: 0,
        product_id: String::from("p"),
        source_sequence: -4,
        time: 0,
        info: BookInfo {
            sequence: 0,
            ask_total_size: Decimal::zero(),
            ask_total_value: Decimal::zero(),
            bid_total_size: Decimal::zero(),
            bid_total_value: Decimal::zero(),
        },
        bids: vec![price_level(2.0, 1.0), price_level(1.0, 5.0), price_level(2.0, 3.0)],
        asks: vec![],
    };
    let book = OrderBook::from_snapshot(message);
    assert_eq!(book.sequence, 0);
    assert_eq!(prices(&book.bids.levels), vec![1.0, 2.0]);
    assert!(book.bids_total.same(&dec("8")));
    assert!(book.bids_value_total.same(&dec("11")));
    assert!(totals_hold(&book));
}

#[test]
fn snapshot_cuts_the_sequence_to_32_bits() {
    let book = OrderBook::new("p", 0x1_8000_0005);
    let message = book.to_snapshot(1);
    assert_eq!(message.info.sequence, 0x8000_0005);
    assert_eq!(message.source_sequence, -0x7fff_fffb);
    assert_eq!(OrderBook::from_snapshot(message).sequence, 0);
}

#[test]
fn level_conversions_recompute_the_value() {
    let level = Level::new(dec("2.5"), dec("4"));
    assert!(level.value.same(&dec("10")));
    let listed = level.clone().into_price_level();
    assert!(listed.price.same(&dec("2.5")) && listed.total_value.same(&dec("10")));
    let shown = level.into_snapshot_level();
    assert!(shown.total_size.same(&dec("4")) && shown.total_value.same(&dec("10")));
    assert_eq!(shown.relative_size, 0);
    let back = Level::from_price_level(PriceLevel {
        price: dec("3"),
        total_size: dec("2"),
        total_value: dec("100"),
    });
    assert!(back.value.same(&dec("6")));
    let blank = SnapshotLevel::new();
    assert!(blank.price.same(&Decimal::zero()) && blank.total_size.same(&Decimal::zero()));
}

#[test]
fn ladder_keeps_prices_apart_by_value() {
    let mut ladder = Ladder::new();
    assert!(ladder.upsert(Level::new(dec("2"), dec("1"))).is_none());
    assert!(ladder.upsert(Level::new(dec("1"), dec("1"))).is_none());
    assert!(ladder.upsert(Level::new(dec("3"), dec("1"))).is_none());
    let prev = ladder.upsert(Level::new(dec("2.00"), dec("7")));
    assert!(prev.unwrap().size.same(&dec("1")));
    assert_eq!(prices(&ladder.levels), vec![1.0, 2.0, 3.0]);
    assert_eq!(ladder.position(&dec("2.5")), 2);
    assert_eq!(ladder.position(&dec("0")), 0);
    assert_eq!(ladder.position(&dec("9")), 3);
    assert!(ladder.get(&dec("2")).unwrap().size.same(&dec("7")));
    assert!(ladder.get(&dec("2.5")).is_none());
    assert!(ladder.take(&dec("2.5")).is_none());
    assert!(ladder.take(&dec("1.0")).unwrap().price.same(&dec("1")));
    assert_eq!(prices(&ladder.levels), vec![2.0, 3.0]);
    assert!(ladder.level(1).price.same(&dec("3")));
}

#[test]
fn no_bucket_stays_behind_empty() {
    let mut book = OrderBook::new("X", 0);
    book.set_group_size(dec("0.5"));
    for (price, size) in [("10.1", "1"), ("10.2", "2"), ("10.7", "3")] {
        book.add_level(OrderType::Ask, dec(price), dec(size), 0);
    }
    assert_eq!(book.grouped_asks.len(), 2);
    book.remove_level(OrderType::Ask, dec("10.7"), 0);
    assert_eq!(book.grouped_asks.len(), 1);
    book.remove_level(OrderType::Ask, dec("10.1"), 0);
    assert_eq!(book.grouped_asks.len(), 1);
    assert!(book.grouped_asks.levels[0].size.same(&dec("2")));
    book.remove_level(OrderType::Ask, dec("10.2"), 0);
    assert_eq!(book.grouped_asks.len(), 0);
    assert!(book.grouped_asks.levels.iter().all(|l| !l.size.same(&Decimal::zero())));
}

#[test]
fn sizes_of_both_signs_can_leave_a_bucket_out_of_step() {
    let mut book = OrderBook::new("X", 0);
    book.add_level(OrderType::Bid, dec("10.1"), dec("5"), 0);
    book.add_level(OrderType::Bid, dec("10.2"), dec("-5"), 0);
    book.add_level(OrderType::Bid, dec("10.3"), dec("3"), 0);
    assert!(buckets_hold(&book));
    book.remove_level(OrderType::Bid, dec("10.3"), 0);
    assert_eq!(book.grouped_bids.len(), 0);
    book.remove_level(OrderType::Bid, dec("10.1"), 0);
    assert_eq!(book.grouped_bids.len(), 0);
    assert!(book.bids_total.same(&dec("-5")));
    assert!(totals_hold(&book));
    assert!(!buckets_hold(&book));
}
