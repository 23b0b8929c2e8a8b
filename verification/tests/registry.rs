use snakemeter::callable::{Callable, CallableStats, SampleType};
use snakemeter::registry::CallableRegistry;

fn site(path: &str, name: &str, line: i32) -> Callable {
    Callable::new(path.to_string(), name.to_string(), line)
}

fn sorted(mut rows: Vec<(String, String, i32, u64, u64)>) -> Vec<(String, String, i32, u64, u64)> {
    rows.sort();
    rows
}

fn row(path: &str, name: &str, line: i32, cumulative: u64, own: u64) -> (String, String, i32, u64, u64) {
    (path.to_string(), name.to_string(), line, cumulative, own)
}

#[test]
fn callable_new_keeps_its_fields() {
    let c = Callable::new("/a.py".to_string(), "foo".to_string(), 10);
    assert_eq!(c.path, "/a.py");
    assert_eq!(c.name, "foo");
    assert_eq!(c.line, 10);
}

#[test]
fn callable_equality_is_structural() {
    let a = site("/a.py", "foo", 10);
    let b = site("/a.py", "foo", 10);
    assert!(a == b);
    assert!(a != site("/b.py", "foo", 10));
    assert!(a != site("/a.py", "bar", 10));
    assert!(a != site("/a.py", "foo", 11));
}

#[test]
fn callable_clone_is_equal_to_its_source() {
    let a = site("/a.py", "foo", -3);
    let b = a.clone();
    assert_eq!(a, b);
    assert_eq!(b.path, "/a.py");
    assert_eq!(b.name, "foo");
    assert_eq!(b.line, -3);
}

#[test]
fn stats_start_at_zero() {
    let stats = CallableStats::new(7);
    assert_eq!(stats.cid, 7);
    assert_eq!(stats.cumulative_count, 0);
    assert_eq!(stats.self_count, 0);
}

#[test]
fn stats_update_counts_a_self_sample() {
    let mut stats = CallableStats::new(1);
    stats.update(SampleType::SelfSample);
    assert_eq!(stats.cid, 1);
    assert_eq!(stats.self_count, 1);
    assert_eq!(stats.cumulative_count, 0);
}

#[test]
fn stats_update_counts_a_cumulative_sample() {
    let mut stats = CallableStats::new(1);
    stats.update(SampleType::CumulativeSample);
    stats.update(SampleType::CumulativeSample);
    assert_eq!(stats.cid, 1);
    assert_eq!(stats.self_count, 0);
    assert_eq!(stats.cumulative_count, 2);
}

#[test]
fn empty_registry_exports_nothing() {
    let mut registry = CallableRegistry::new();
    assert!(registry.as_tuples_list().is_empty());
    assert_eq!(registry.lookup(&site("/a.py", "foo", 10)), None);
}

#[test]
fn two_callables_scenario() {
    let mut registry = CallableRegistry::new();
    let foo = site("/a.py", "foo", 10);
    let bar = site("/a.py", "bar", 20);
    registry.record_sample(&foo, SampleType::SelfSample);
    registry.record_sample(&foo, SampleType::SelfSample);
    registry.record_sample(&foo, SampleType::CumulativeSample);
    registry.record_sample(&bar, SampleType::CumulativeSample);
    let rows = sorted(registry.as_tuples_list());
    assert_eq!(rows, vec![row("/a.py", "bar", 20, 1, 0), row("/a.py", "foo", 10, 1, 2)]);
}

#[test]
fn export_has_one_row_for_each_distinct_callable() {
    let mut registry = CallableRegistry::new();
    let names = ["a", "b", "a", "c", "b", "a", "d", "d", "a"];
    for name in names.iter() {
        registry.record_sample(&site("/m.py", name, 1), SampleType::CumulativeSample);
    }
    let rows = sorted(registry.as_tuples_list());
    assert_eq!(rows.len(), 4);
    assert_eq!(
        rows,
        vec![
            row("/m.py", "a", 1, 4, 0),
            row("/m.py", "b", 1, 2, 0),
            row("/m.py", "c", 1, 1, 0),
            row("/m.py", "d", 1, 2, 0),
        ]
    );
}

#[test]
fn ids_follow_the_order_of_first_sight() {
    let mut registry = CallableRegistry::new();
    let first = site("/z.py", "last_by_name", 99);
    let second = site("/a.py", "first_by_name", 1);
    let third = site("/m.py", "middle", 50);
    registry.record_sample(&first, SampleType::SelfSample);
    assert_eq!(registry.lookup(&first), Some(1));
    assert_eq!(registry.lookup(&second), None);
    registry.record_sample(&second, SampleType::CumulativeSample);
    registry.record_sample(&first, SampleType::CumulativeSample);
    registry.record_sample(&third, SampleType::SelfSample);
    assert_eq!(registry.lookup(&first), Some(1));
    assert_eq!(registry.lookup(&second), Some(2));
    assert_eq!(registry.lookup(&third), Some(3));
}

#[test]
fn recording_a_known_callable_hands_out_no_id() {
    let mut registry = CallableRegistry::new();
    let foo = site("/a.py", "foo", 10);
    let bar = site("/a.py", "bar", 20);
    registry.record_sample(&foo, SampleType::SelfSample);
    registry.record_sample(&bar, SampleType::SelfSample);
    assert_eq!(registry.as_tuples_list().len(), 2);
    let again = Callable::new(String::from("/a.py"), String::from("foo"), 10);
    registry.record_sample(&again, SampleType::CumulativeSample);
    registry.record_sample(&again, SampleType::SelfSample);
    assert_eq!(registry.as_tuples_list().len(), 2);
    assert_eq!(registry.lookup(&foo), Some(1));
    assert_eq!(registry.lookup(&again), Some(1));
    assert_eq!(registry.lookup(&bar), Some(2));
    let next = site("/a.py", "baz", 30);
    registry.record_sample(&next, SampleType::SelfSample);
    assert_eq!(registry.lookup(&next), Some(3));
}

#[test]
fn counters_count_each_kind_in_any_interleaving() {
    let foo = site("/a.py", "foo", 10);
    let other = site("/b.py", "other", 5);
    let orders: [[bool; 5]; 3] = [
        [true, true, true, false, false],
        [false, true, false, true, true],
        [true, false, true, false, true],
    ];
    for order in orders.iter() {
        let mut registry = CallableRegistry::new();
        for own in order.iter() {
            registry.record_sample(&other, SampleType::CumulativeSample);
            if *own {
                registry.record_sample(&foo, SampleType::SelfSample);
            } else {
                registry.record_sample(&foo, SampleType::CumulativeSample);
            }
        }
        let rows = sorted(registry.as_tuples_list());
        assert_eq!(rows, vec![row("/a.py", "foo", 10, 2, 3), row("/b.py", "other", 5, 5, 0)]);
    }
}

#[test]
fn callables_that_differ_in_line_are_counted_apart() {
    let mut registry = CallableRegistry::new();
    let at_ten = site("/a.py", "foo", 10);
    let at_eleven = site("/a.py", "foo", 11);
    registry.record_sample(&at_ten, SampleType::SelfSample);
    registry.record_sample(&at_eleven, SampleType::CumulativeSample);
    registry.record_sample(&at_ten, SampleType::SelfSample);
    assert_eq!(registry.lookup(&at_ten), Some(1));
    assert_eq!(registry.lookup(&at_eleven), Some(2));
    let rows = sorted(registry.as_tuples_list());
    assert_eq!(rows, vec![row("/a.py", "foo", 10, 0, 2), row("/a.py", "foo", 11, 1, 0)]);
}

#[test]
fn callables_that_differ_in_path_or_name_are_counted_apart() {
    let mut registry = CallableRegistry::new();
    registry.record_sample(&site("/a.py", "foo", 10), SampleType::SelfSample);
    registry.record_sample(&site("/b.py", "foo", 10), SampleType::SelfSample);
    registry.record_sample(&site("/a.py", "bar", 10), SampleType::CumulativeSample);
    let rows = sorted(registry.as_tuples_list());
    assert_eq!(
        rows,
        vec![
            row("/a.py", "bar", 10, 1, 0),
            row("/a.py", "foo", 10, 0, 1),
            row("/b.py", "foo", 10, 0, 1),
        ]
    );
}

#[test]
fn two_exports_in_a_row_agree() {
    let mut registry = CallableRegistry::new();
    registry.record_sample(&site("/a.py", "foo", 10), SampleType::SelfSample);
    registry.record_sample(&site("/a.py", "bar", 20), SampleType::CumulativeSample);
    registry.record_sample(&site("/c.py", "baz", 30), SampleType::CumulativeSample);
    let first = sorted(registry.as_tuples_list());
    let second = sorted(registry.as_tuples_list());
    assert_eq!(first.len(), 3);
    assert_eq!(first, second);
}

#[test]
fn an_export_is_a_snapshot() {
    let mut registry = CallableRegistry::new();
    let foo = site("/a.py", "foo", 10);
    registry.record_sample(&foo, SampleType::SelfSample);
    let before = registry.as_tuples_list();
    registry.record_sample(&foo, SampleType::SelfSample);
    registry.record_sample(&site("/a.py", "bar", 20), SampleType::SelfSample);
    assert_eq!(before, vec![row("/a.py", "foo", 10, 0, 1)]);
    let after = sorted(registry.as_tuples_list());
    assert_eq!(after, vec![row("/a.py", "bar", 20, 0, 1), row("/a.py", "foo", 10, 0, 2)]);
}

#[test]
fn fields_are_not_validated() {
    let mut registry = CallableRegistry::new();
    let blank = site("", "", 0);
    let negative = site("", "", -1);
    let lowest = site("", "", i32::MIN);
    registry.record_sample(&blank, SampleType::SelfSample);
    registry.record_sample(&negative, SampleType::CumulativeSample);
    registry.record_sample(&lowest, SampleType::CumulativeSample);
    registry.record_sample(&blank, SampleType::CumulativeSample);
    assert_eq!(registry.lookup(&blank), Some(1));
    assert_eq!(registry.lookup(&negative), Some(2));
    assert_eq!(registry.lookup(&lowest), Some(3));
    let rows = sorted(registry.as_tuples_list());
    assert_eq!(
        rows,
        vec![row("", "", i32::MIN, 1, 0), row("", "", -1, 1, 0), row("", "", 0, 1, 1)]
    );
}

#[test]
fn one_callable_recorded_many_times() {
    let mut registry = CallableRegistry::new();
    let foo = site("/a.py", "foo", 10);
    let mut round: u32 = 0;
    while round < 5000 {
        registry.record_sample(&foo, SampleType::CumulativeSample);
        if round % 5 == 0 {
            registry.record_sample(&foo, SampleType::SelfSample);
        }
        round += 1;
    }
    assert_eq!(registry.lookup(&foo), Some(1));
    assert_eq!(registry.as_tuples_list(), vec![row("/a.py", "foo", 10, 5000, 1000)]);
}

#[test]
fn many_callables_interleaved_with_repeats() {
    let mut registry = CallableRegistry::new();
    let distinct: i32 = 1500;
    let mut line: i32 = 0;
    while line < distinct {
        registry.record_sample(&site("/big.py", "f", line), SampleType::CumulativeSample);
        if line > 0 {
            registry.record_sample(&site("/big.py", "f", line - 1), SampleType::SelfSample);
        }
        registry.record_sample(&site("/big.py", "f", 0), SampleType::CumulativeSample);
        line += 1;
    }
    let rows = sorted(registry.as_tuples_list());
    assert_eq!(rows.len(), 1500);
    assert_eq!(rows[0], row("/big.py", "f", 0, 1501, 1));
    assert_eq!(rows[1], row("/big.py", "f", 1, 1, 1));
    assert_eq!(rows[1498], row("/big.py", "f", 1498, 1, 1));
    assert_eq!(rows[1499], row("/big.py", "f", 1499, 1, 0));
    line = 0;
    while line < distinct {
        let expected: u64 = (line as u64) + 1;
        assert_eq!(registry.lookup(&site("/big.py", "f", line)), Some(expected));
        line += 1;
    }
    assert_eq!(registry.lookup(&site("/big.py", "f", distinct)), None);
}
