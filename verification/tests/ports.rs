use einat::error::ConfigError;
use einat::ports::{
    sort_and_merge_ranges, ExternalRanges, PortRange, ProtoRange, RawPortRange, MAX_PORT_RANGES,
};

fn r(start: u16, end: u16) -> PortRange {
    PortRange { start, end }
}

fn p(start: u16, end: u16) -> ProtoRange {
    ProtoRange { inner: r(start, end) }
}

fn ports(ranges: &[PortRange]) -> Vec<bool> {
    let mut covered = vec![false; 65536];
    for range in ranges {
        let mut port = range.start as u32;
        while port <= range.end as u32 {
            covered[port as usize] = true;
            port += 1;
        }
    }
    covered
}

#[test]
fn external_range() {
    let ranges_a = vec![p(200, 300), p(0, 100), p(50, 150), p(250, 290)];
    let ranges_a = ExternalRanges::try_from(&ranges_a, true).unwrap();
    assert_eq!(vec![r(0, 150), r(200, 300)], ranges_a.0);
    assert!(ranges_a.contains(&ranges_a));

    let ranges_b = vec![p(0, 100)];
    let ranges_b = ExternalRanges::try_from(&ranges_b, true).unwrap();
    assert!(ranges_a.contains(&ranges_b));

    let ranges_c = vec![p(120, 220)];
    let ranges_c = ExternalRanges::try_from(&ranges_c, true).unwrap();
    assert!(!ranges_a.contains(&ranges_c));

    let ranges_d = vec![p(0, 1)];
    let ranges_d = ExternalRanges::try_from(&ranges_d, false);
    assert!(ranges_d.is_err())
}

#[test]
fn zero_start_is_refused_with_its_own_error() {
    let res = ExternalRanges::try_from(&[p(5, 9), p(0, 1)], false);
    assert_eq!(res, Err(ConfigError::ZeroNotAllowed));
}

#[test]
fn zero_start_comes_before_too_many() {
    let input = [p(0, 1), p(10, 11), p(20, 21), p(30, 31), p(40, 41), p(50, 51)];
    assert_eq!(ExternalRanges::try_from(&input, false), Err(ConfigError::ZeroNotAllowed));
    assert_eq!(ExternalRanges::try_from(&input, true), Err(ConfigError::TooManyRanges));
}

#[test]
fn too_many_ranges_counts_after_merging() {
    assert_eq!(MAX_PORT_RANGES, 4);
    let five = [p(1, 2), p(4, 5), p(7, 8), p(10, 11), p(13, 14)];
    assert_eq!(ExternalRanges::try_from(&five, false), Err(ConfigError::TooManyRanges));
    let five_touching = [p(1, 2), p(3, 5), p(7, 8), p(10, 11), p(13, 14)];
    let merged = ExternalRanges::try_from(&five_touching, false).unwrap();
    assert_eq!(merged.0, vec![r(1, 5), r(7, 8), r(10, 11), r(13, 14)]);
}

#[test]
fn merge_drops_empty_joins_adjacent_and_overlapping() {
    assert_eq!(sort_and_merge_ranges(&[]), Vec::<PortRange>::new());
    assert_eq!(sort_and_merge_ranges(&[r(9, 3)]), Vec::<PortRange>::new());
    assert_eq!(sort_and_merge_ranges(&[r(5, 5)]), vec![r(5, 5)]);
    assert_eq!(sort_and_merge_ranges(&[r(10, 20), r(21, 30)]), vec![r(10, 30)]);
    assert_eq!(sort_and_merge_ranges(&[r(10, 20), r(22, 30)]), vec![r(10, 20), r(22, 30)]);
    assert_eq!(sort_and_merge_ranges(&[r(10, 40), r(15, 20), r(9, 3)]), vec![r(10, 40)]);
    assert_eq!(sort_and_merge_ranges(&[r(30, 40), r(10, 35)]), vec![r(10, 40)]);
}

#[test]
fn merge_reaches_the_last_port_without_overflow() {
    assert_eq!(
        sort_and_merge_ranges(&[r(65535, 65535), r(100, 65535), r(0, 0)]),
        vec![r(0, 0), r(100, 65535)]
    );
    assert_eq!(sort_and_merge_ranges(&[r(0, 65534), r(65535, 65535)]), vec![r(0, 65535)]);
}

#[test]
fn normalize_is_idempotent_and_canonical() {
    let inputs: Vec<Vec<PortRange>> = vec![
        vec![r(200, 300), r(0, 100), r(50, 150), r(250, 290)],
        vec![r(7, 7), r(8, 8), r(10, 10), r(9, 2)],
        vec![r(1000, 2000), r(1, 1), r(2001, 2001), r(65535, 65535)],
        vec![],
    ];
    for input in inputs {
        let once = sort_and_merge_ranges(&input);
        let twice = sort_and_merge_ranges(&once);
        assert_eq!(once, twice);
        assert_eq!(ports(&once), ports(&input));
        for range in &once {
            assert!(range.start <= range.end);
        }
        for pair in once.windows(2) {
            assert!((pair[0].end as u32) + 1 < pair[1].start as u32);
        }
    }
}

#[test]
fn contains_is_port_inclusion() {
    let lists: Vec<Vec<PortRange>> = vec![
        vec![],
        vec![r(0, 150), r(200, 300)],
        vec![r(0, 100)],
        vec![r(120, 220)],
        vec![r(100, 149), r(150, 150)],
        vec![r(151, 199)],
        vec![r(200, 300), r(0, 150)],
        vec![r(0, 65535)],
        vec![r(300, 301)],
    ];
    for a in &lists {
        for b in &lists {
            let pa = ports(a);
            let pb = ports(b);
            let included = (0..65536).all(|i| !pb[i] || pa[i]);
            let got = ExternalRanges(a.clone()).contains(&ExternalRanges(b.clone()));
            assert_eq!(got, included, "{:?} contains {:?}", a, b);
        }
    }
}

#[test]
fn contains_is_reflexive() {
    let lists: Vec<Vec<PortRange>> = vec![
        vec![],
        vec![r(0, 0)],
        vec![r(5, 1)],
        vec![r(30, 40), r(10, 35), r(36, 50)],
        vec![r(0, 65535)],
    ];
    for a in lists {
        let a = ExternalRanges(a);
        assert!(a.contains(&a));
    }
}

#[test]
fn apply_raw_fills_slots_and_count() {
    let zero = RawPortRange { start_port: 0, end_port: 0 };
    let ranges = ExternalRanges::try_from(&[p(20000, 29999), p(100, 200)], false).unwrap();
    let mut raw = [RawPortRange { start_port: 7, end_port: 7 }; MAX_PORT_RANGES];
    let mut len: u8 = 9;
    ranges.apply_raw(&mut raw, &mut len);
    assert_eq!(len, 2);
    assert_eq!(
        raw,
        [
            RawPortRange { start_port: 100, end_port: 200 },
            RawPortRange { start_port: 20000, end_port: 29999 },
            zero,
            zero,
        ]
    );
    ExternalRanges::empty().apply_raw(&mut raw, &mut len);
    assert_eq!(len, 0);
    assert_eq!(raw, [zero; MAX_PORT_RANGES]);
    assert!(ExternalRanges::empty().is_empty());
    assert!(!ranges.is_empty());
}
