use fddup::algo::{find_work, GetKey};

#[derive(Debug, Eq, PartialEq)]
struct TestWork {
    id: u32,
    bytes_remaining: u64,
}

impl GetKey<u32> for TestWork {
    fn key_spec(&self) -> u32 {
        self.id
    }

    fn bytes_remaining_spec(&self) -> u64 {
        self.bytes_remaining
    }

    fn key(&self) -> u32 {
        self.id
    }

    fn bytes_remaining(&self) -> u64 {
        self.bytes_remaining
    }
}

fn w_10(id: u32) -> TestWork {
    TestWork {
        id,
        bytes_remaining: 10,
    }
}

fn w_0(id: u32) -> TestWork {
    TestWork {
        id,
        bytes_remaining: 0,
    }
}

#[test]
fn find_work_no_dups() {
    let mut input = vec![w_10(1), w_10(2), w_10(3), w_10(4)];
    let w = find_work(&mut input, 4);

    assert_eq!(input, vec![]);
    assert_eq!(w.work, vec![]);
    assert_eq!(w.duplicates, vec![]);
    assert_eq!(w.uniques, vec![w_10(4), w_10(3), w_10(2), w_10(1)])
}

#[test]
fn find_work_only_dups_equal_to_desired() {
    let mut input = vec![w_10(1), w_10(1), w_10(1), w_10(1)];
    let w = find_work(&mut input, 4);

    assert_eq!(input, vec![]);
    assert_eq!(w.work, vec![w_10(1), w_10(1), w_10(1), w_10(1)]);
    assert_eq!(w.duplicates, vec![]);
    assert_eq!(w.uniques, vec![]);
}

#[test]
fn find_work_only_dups_more_than_desired() {
    let mut input = vec![w_10(1), w_10(1), w_10(1), w_10(1)];
    let w = find_work(&mut input, 2);

    assert_eq!(input, vec![]);
    assert_eq!(w.work, vec![w_10(1), w_10(1), w_10(1), w_10(1)]);
    assert_eq!(w.duplicates, vec![]);
    assert_eq!(w.uniques, vec![]);
}

#[test]
fn find_work_only_dups_in_middle_more_than_desired() {
    let mut input = vec![
        w_10(1),
        w_10(2),
        w_10(3),
        w_10(3),
        w_10(3),
        w_10(4),
        w_10(5),
    ];
    let w = find_work(&mut input, 2);

    assert_eq!(input, vec![w_10(1), w_10(2)]);
    assert_eq!(w.work, vec![w_10(3), w_10(3), w_10(3)]);
    assert_eq!(w.duplicates, vec![]);
    assert_eq!(w.uniques, vec![w_10(5), w_10(4)]);
}

#[test]
fn find_work_only_dups_in_middle_less_than_desired() {
    let mut input = vec![
        w_10(1),
        w_10(2),
        w_10(3),
        w_10(3),
        w_10(3),
        w_10(4),
        w_10(5),
    ];
    let w = find_work(&mut input, 4);

    assert_eq!(input, vec![]);
    assert_eq!(w.work, vec![w_10(3), w_10(3), w_10(3)]);
    assert_eq!(w.duplicates, vec![]);
    assert_eq!(w.uniques, vec![w_10(5), w_10(4), w_10(2), w_10(1)]);
}

#[test]
fn find_work_some_work_and_some_duplicates_found() {
    let mut input = vec![w_10(1), w_10(2), w_10(3), w_10(3), w_0(4), w_0(4), w_10(5)];
    let w = find_work(&mut input, 4);

    assert_eq!(input, vec![]);
    assert_eq!(w.work, vec![w_10(3), w_10(3)]);
    assert_eq!(w.duplicates, vec![w_0(4), w_0(4)]);
    assert_eq!(w.uniques, vec![w_10(5), w_10(2), w_10(1)]);
}

#[test]
fn find_work_only_duplicates_found() {
    let mut input = vec![w_0(1), w_0(1)];
    let w = find_work(&mut input, 4);

    assert_eq!(input, vec![]);
    assert_eq!(w.work, vec![]);
    assert_eq!(w.duplicates, vec![w_0(1), w_0(1)]);
    assert_eq!(w.uniques, vec![]);
}

#[test]
fn find_no_work_and_no_duplicates_found() {
    let mut input = vec![w_0(1), w_0(2)];
    let w = find_work(&mut input, 4);

    assert_eq!(input, vec![]);
    assert_eq!(w.work, vec![]);
    assert_eq!(w.duplicates, vec![]);
    assert_eq!(w.duplicates, vec![]);
}

#[test]
fn find_some_work_some_remaining_input_leaves_duplicates() {
    let mut input = vec![w_10(1), w_10(1), w_0(2), w_0(3), w_10(4), w_10(4), w_10(5)];
    let w = find_work(&mut input, 2);

    // Duplicates not seen yet since desired doesn't let us iterate over them
    assert_eq!(input, vec![w_10(1), w_10(1), w_0(2), w_0(3)]);
    assert_eq!(w.work, vec![w_10(4), w_10(4)]);
    assert_eq!(w.duplicates, vec![]);
    assert_eq!(w.uniques, vec![w_10(5)]);
}

#[test]
fn find_work_across_multiple_keys() {
    let mut input = vec![w_10(1), w_10(1), w_10(2), w_10(2)];
    let w = find_work(&mut input, 3);

    // Duplicates not seen yet since desired doesn't let us iterate over them
    assert_eq!(input, vec![]);
    assert_eq!(w.work, vec![w_10(2), w_10(2), w_10(1), w_10(1)]);
    assert_eq!(w.duplicates, vec![]);
    assert_eq!(w.uniques, vec![]);
}

#[test]
fn find_work_across_multiple_keys_other_key_in_the_middle() {
    let mut input = vec![w_10(1), w_10(1), w_10(2), w_10(3), w_10(3)];
    let w = find_work(&mut input, 5);

    // Duplicates not seen yet since desired doesn't let us iterate over them
    assert_eq!(input, vec![]);
    assert_eq!(w.work, vec![w_10(3), w_10(3), w_10(1), w_10(1)]);
    assert_eq!(w.duplicates, vec![]);
    assert_eq!(w.uniques, vec![w_10(2)]);
}

fn ids(items: &Vec<TestWork>) -> Vec<u32> {
    let mut out = Vec::new();
    for item in items {
        out.push(item.id);
    }
    out
}

#[test]
fn empty_pool_yields_nothing_and_stays_empty() {
    let mut input: Vec<TestWork> = vec![];
    let w = find_work(&mut input, 4);

    assert!(input.is_empty());
    assert!(w.work.is_empty());
    assert!(w.duplicates.is_empty());
    assert!(w.uniques.is_empty());

    let w = find_work(&mut input, 0);
    assert!(input.is_empty());
    assert!(w.work.is_empty() && w.duplicates.is_empty() && w.uniques.is_empty());
}

#[test]
fn zero_budget_takes_nothing() {
    let mut input = vec![w_10(1), w_0(2), w_0(2), w_10(3)];
    let w = find_work(&mut input, 0);

    assert_eq!(input, vec![w_10(1), w_0(2), w_0(2), w_10(3)]);
    assert!(w.work.is_empty() && w.duplicates.is_empty() && w.uniques.is_empty());
}

#[test]
fn fully_read_run_goes_to_duplicates_whatever_the_budget() {
    for budget in 1..6 {
        let mut input = vec![w_10(1), w_0(2), w_0(2), w_0(2), w_10(3)];
        let w = find_work(&mut input, budget);

        assert_eq!(input, vec![]);
        assert_eq!(w.work, vec![]);
        assert_eq!(w.duplicates, vec![w_0(2), w_0(2), w_0(2)]);
        assert_eq!(w.uniques, vec![w_10(3), w_10(1)]);
    }
}

#[test]
fn fully_read_run_is_finished_after_the_budget_ran_out() {
    // The budget of one is used up by the first element of the run of 5s; the
    // rest of that run and the fully read elements that share its key follow.
    let mut input = vec![w_10(4), w_10(4), w_0(5), w_0(5), w_10(5), w_10(5)];
    let w = find_work(&mut input, 1);

    assert_eq!(input, vec![w_10(4), w_10(4)]);
    assert_eq!(w.work, vec![w_10(5), w_10(5)]);
    assert_eq!(w.duplicates, vec![w_0(5), w_0(5)]);
    assert_eq!(w.uniques, vec![]);
}

#[test]
fn lone_key_is_unique_between_groups() {
    let mut input = vec![w_0(1), w_0(1), w_0(2), w_10(3), w_10(3)];
    let w = find_work(&mut input, 8);

    assert_eq!(input, vec![]);
    assert_eq!(w.work, vec![w_10(3), w_10(3)]);
    assert_eq!(w.duplicates, vec![w_0(1), w_0(1)]);
    assert_eq!(w.uniques, vec![w_0(2)]);
}

#[test]
fn work_exceeds_budget_only_to_finish_a_run() {
    let mut input = vec![w_10(1), w_10(1), w_10(2), w_10(2), w_10(2), w_10(3), w_10(3)];
    let w = find_work(&mut input, 3);

    // Two elements of key 3 and the first of key 2 use the budget up; the
    // run of key 2 is finished, the run of key 1 is not begun.
    assert_eq!(input, vec![w_10(1), w_10(1)]);
    assert_eq!(ids(&w.work), vec![3, 3, 2, 2, 2]);
    assert_eq!(w.duplicates, vec![]);
    assert_eq!(w.uniques, vec![]);
}

#[test]
fn pass_neither_loses_nor_repeats_an_element() {
    let pool = || vec![w_10(1), w_0(2), w_0(2), w_10(3), w_10(4), w_10(4), w_0(5), w_10(6), w_10(6)];
    for budget in 0..10 {
        let mut input = pool();
        let before = input.len();
        let w = find_work(&mut input, budget);
        assert_eq!(input.len() + w.work.len() + w.duplicates.len() + w.uniques.len(), before);

        let mut taken: Vec<u32> = Vec::new();
        taken.extend(ids(&w.work));
        taken.extend(ids(&w.duplicates));
        taken.extend(ids(&w.uniques));
        taken.sort();
        let mut all = ids(&input);
        all.extend(taken);
        assert_eq!(all, ids(&pool()));
    }
}

#[test]
fn work_read_to_the_end_comes_back_as_duplicates() {
    let mut input = vec![w_10(1), w_10(7), w_10(7), w_10(7)];
    let w = find_work(&mut input, 2);
    assert_eq!(w.work, vec![w_10(7), w_10(7), w_10(7)]);
    assert_eq!(input, vec![w_10(1)]);

    // The reads reach the end of each file and leave the digests equal.
    let mut again: Vec<TestWork> = Vec::new();
    for item in w.work {
        again.push(w_0(item.id));
    }
    let w = find_work(&mut again, usize::MAX);
    assert_eq!(again, vec![]);
    assert_eq!(w.work, vec![]);
    assert_eq!(w.duplicates, vec![w_0(7), w_0(7), w_0(7)]);
    assert_eq!(w.uniques, vec![]);
}
