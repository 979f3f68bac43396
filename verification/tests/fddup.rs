use fddup::algo::Work;
use fddup::cli::Options;
use fddup::fddup::{candidates, output_line, Fddup, Listing, Step};
use fddup::possdupe::PossDupe;

fn mk_pd(path: &str, len: u64) -> PossDupe {
    PossDupe::new(path, len)
}

// What two candidates are compared by: path, length and read position.
fn shape(pds: &Vec<PossDupe>) -> Vec<(String, u64, u64)> {
    let mut out = Vec::new();
    for pd in pds {
        out.push((pd.path.clone(), pd.key.len, pd.bytes_read));
    }
    out
}

fn paths(pds: &Vec<PossDupe>) -> Vec<String> {
    let mut out = Vec::new();
    for pd in pds {
        out.push(pd.path.clone());
    }
    out
}

#[test]
fn remove_duplicate_paths() {
    let mut pd = Vec::new();
    pd.push(mk_pd("a", 10));
    pd.push(mk_pd("b", 10));
    pd.push(mk_pd("a", 10));

    // Shouldn't be possible to have the same path with different lengths
    // unless the length were to change during iteration, but if we do,
    // treat it as a duplicate.
    pd.push(mk_pd("b", 11));

    fddup::fddup::remove_duplicate_paths(&mut pd);

    assert_eq!(shape(&pd), shape(&vec![mk_pd("a", 10), mk_pd("b", 10)]));
}

#[test]
fn sort_poss_dupes() {
    let mut pd = Vec::new();

    // "c" and "d" have been read some
    let mut d = mk_pd("d", 300);
    d.update_digest(&['a' as u8]);
    pd.push(d);

    let mut c = mk_pd("c", 300);
    c.update_digest(&['b' as u8]);
    pd.push(c);

    // "a" and "b" haven't yet been read
    pd.push(mk_pd("a", 100));
    pd.push(mk_pd("b", 200));

    fddup::fddup::sort_poss_dupes(&mut pd);

    assert_eq!(
        shape(&pd),
        shape(&vec![
            mk_pd("a", 100),
            mk_pd("b", 200),
            mk_pd("c", 300),
            mk_pd("d", 300)
        ])
    );
}

#[test]
fn sort_keeps_candidates_of_one_key_in_their_order() {
    let mut pd = vec![
        mk_pd("z", 5),
        mk_pd("m", 3),
        mk_pd("a", 5),
        mk_pd("k", 5),
        mk_pd("b", 3),
        mk_pd("q", 1),
    ];
    fddup::fddup::sort_poss_dupes(&mut pd);
    assert_eq!(paths(&pd), vec!["q", "m", "b", "z", "a", "k"]);
}

#[test]
fn sort_orders_equal_lengths_by_digest_bytes() {
    let mut x = mk_pd("x", 9);
    x.key.digest_snapshot[0] = 2;
    let mut y = mk_pd("y", 9);
    y.key.digest_snapshot[0] = 1;
    y.key.digest_snapshot[31] = 255;
    let mut z = mk_pd("z", 9);
    z.key.digest_snapshot[0] = 1;
    z.key.digest_snapshot[31] = 254;
    let w = mk_pd("w", 9);
    let v = mk_pd("v", 8);

    let mut pd = vec![x, y, z, w, v];
    fddup::fddup::sort_poss_dupes(&mut pd);
    assert_eq!(paths(&pd), vec!["v", "w", "z", "y", "x"]);
}

#[test]
fn sort_of_nothing_and_of_one() {
    let mut none: Vec<PossDupe> = Vec::new();
    fddup::fddup::sort_poss_dupes(&mut none);
    assert!(none.is_empty());

    let mut one = vec![mk_pd("only", 1)];
    fddup::fddup::sort_poss_dupes(&mut one);
    assert_eq!(paths(&one), vec!["only"]);
}

#[test]
fn duplicate_paths_leave_the_first_listed_in_path_order() {
    let mut pd = vec![
        mk_pd("dir/b", 1),
        mk_pd("dir/a", 2),
        mk_pd("dir", 3),
        mk_pd("dir/b", 4),
        mk_pd("dir/a", 5),
        mk_pd("dir/ab", 6),
        mk_pd("dir/b", 7),
    ];
    fddup::fddup::remove_duplicate_paths(&mut pd);
    assert_eq!(
        shape(&pd),
        vec![
            ("dir".to_string(), 3, 0),
            ("dir/a".to_string(), 2, 0),
            ("dir/ab".to_string(), 6, 0),
            ("dir/b".to_string(), 1, 0),
        ]
    );

    let mut none: Vec<PossDupe> = Vec::new();
    fddup::fddup::remove_duplicate_paths(&mut none);
    assert!(none.is_empty());
}

#[test]
fn output_line_has_digest_and_path() {
    let mut pd = mk_pd("some dir/file.txt", 3);
    pd.advance(b"abc");
    assert_eq!(
        output_line(&pd, false),
        "ba7816bf8f01cfea414140de5dae2223b00361a396177a9cb410ff61f20015ad  some dir/file.txt\n"
    );
}

#[test]
fn output_line_with_size() {
    let mut pd = mk_pd("f", 3);
    pd.advance(b"abc");
    assert_eq!(
        output_line(&pd, true),
        "ba7816bf8f01cfea414140de5dae2223b00361a396177a9cb410ff61f20015ad  3  f\n"
    );

    let empty = mk_pd("empty", 0);
    assert_eq!(
        output_line(&empty, true),
        "0000000000000000000000000000000000000000000000000000000000000000  0  empty\n"
    );
}

fn listing(path: &str, len: u64, is_dir: bool, is_symlink: bool) -> Listing {
    Listing { path: path.to_string(), len, is_dir, is_symlink }
}

#[test]
fn candidates_leave_out_directories_and_symlinks() {
    let listings = vec![
        listing("a", 10, false, false),
        listing("d", 4096, true, false),
        listing("l", 3, false, true),
        listing("b", 0, false, false),
        listing("dl", 5, true, true),
        listing("a", 10, false, false),
    ];
    let found = candidates(&listings);
    assert_eq!(
        shape(&found),
        vec![("a".to_string(), 10, 0), ("b".to_string(), 0, 0), ("a".to_string(), 10, 0)]
    );
    assert_eq!(found[0].file_len, 10);
    assert_eq!(found[0].key.digest_snapshot, [0u8; 32]);
    assert!(candidates(&Vec::new()).is_empty());
}

fn options(read_size: usize, num_threads: usize) -> Options {
    Options {
        files: None,
        output: None,
        skip_empty: false,
        verbose: true,
        show_size: true,
        read_size,
        num_threads,
    }
}

#[test]
fn new_run_has_its_options_and_no_candidates() {
    let mut run = Fddup::new(options(7, 3));
    assert_eq!(run.budget(), 3);
    assert_eq!(run.read_size(), 7);
    assert!(run.show_size());
    assert!(run.verbose());
    assert_eq!(run.pending(), 0);
    assert!(matches!(run.step(Vec::new()), Step::Done));
    assert!(matches!(run.step(Vec::new()), Step::Done));
}

#[test]
fn load_drops_repeated_paths_and_sorts_by_size() {
    let mut run = Fddup::new(options(4, 8));
    run.load(vec![mk_pd("c", 30), mk_pd("a", 20), mk_pd("c", 10), mk_pd("b", 20), mk_pd("d", 1)]);
    assert_eq!(run.pending(), 4);
    match run.step(Vec::new()) {
        Step::Round(w) => {
            assert_eq!(paths(&w.uniques), vec!["c", "d"]);
            assert_eq!(paths(&w.work), vec!["b", "a"]);
            assert!(w.duplicates.is_empty());
        },
        Step::Done => panic!("the pool was not empty"),
    }
    assert_eq!(run.pending(), 0);
}

// Plays the caller's part on files held in memory: reads one chunk of each
// candidate of the work and hands the candidates back.
fn read_round(work: Vec<PossDupe>, files: &Vec<(&str, Vec<u8>)>, read_size: usize) -> Vec<PossDupe> {
    let mut read = Vec::new();
    for mut pd in work {
        let mut content: &[u8] = &[];
        for (path, bytes) in files {
            if *path == pd.path {
                content = bytes;
            }
        }
        let from = pd.bytes_read as usize;
        let n = pd.read_len(read_size);
        assert!(pd.try_advance(&content[from..from + n]));
        read.push(pd);
    }
    read
}

fn run_to_end(files: &Vec<(&str, Vec<u8>)>, read_size: usize, budget: usize) -> (Vec<String>, Vec<String>, usize) {
    let mut listed = Vec::new();
    for (path, bytes) in files {
        listed.push(mk_pd(path, bytes.len() as u64));
    }
    let mut run = Fddup::new(options(read_size, budget));
    run.load(listed);
    let mut uniques = Vec::new();
    let mut duplicates = Vec::new();
    let mut rounds = 0;
    let mut read: Vec<PossDupe> = Vec::new();
    loop {
        match run.step(read) {
            Step::Done => break,
            Step::Round(Work { work, duplicates: d, uniques: u }) => {
                for pd in &d {
                    assert_eq!(pd.bytes_remaining(), 0);
                }
                uniques.extend(paths(&u));
                duplicates.extend(paths(&d));
                read = read_round(work, files, read_size);
                rounds += 1;
                assert!(rounds < 1000);
            },
        }
    }
    uniques.sort();
    duplicates.sort();
    (uniques, duplicates, rounds)
}

#[test]
fn run_finds_the_files_of_equal_content() {
    let files: Vec<(&str, Vec<u8>)> = vec![
        ("one", b"0123456789".to_vec()),
        ("two", b"0123456789".to_vec()),
        ("late", b"012345678X".to_vec()),
        ("early", b"X123456789".to_vec()),
        ("short", b"01234".to_vec()),
        ("e1", Vec::new()),
        ("e2", Vec::new()),
        ("three", b"0123456789".to_vec()),
        ("other", b"abcdefghijklmnop".to_vec()),
        ("other2", b"abcdefghijklmnop".to_vec()),
    ];
    for read_size in [1usize, 3, 4, 10, 64] {
        for budget in [1usize, 2, 3, 16] {
            let (uniques, duplicates, _) = run_to_end(&files, read_size, budget);
            assert_eq!(uniques, vec!["early", "late", "short"]);
            assert_eq!(duplicates, vec!["e1", "e2", "one", "other", "other2", "three", "two"]);
        }
    }
}

#[test]
fn run_reads_no_more_than_it_must() {
    let files: Vec<(&str, Vec<u8>)> =
        vec![("a", b"Axxxxxxxxxxxxxxx".to_vec()), ("b", b"Bxxxxxxxxxxxxxxx".to_vec())];
    let mut run = Fddup::new(options(4, 2));
    run.load(vec![mk_pd("a", 16), mk_pd("b", 16)]);
    let work = match run.step(Vec::new()) {
        Step::Round(w) => w.work,
        Step::Done => panic!("the pool was not empty"),
    };
    assert_eq!(work.len(), 2);
    let read = read_round(work, &files, 4);
    match run.step(read) {
        Step::Round(w) => {
            assert!(w.work.is_empty());
            assert!(w.duplicates.is_empty());
            assert_eq!(w.uniques.len(), 2);
            assert_eq!(w.uniques[0].bytes_read, 4);
            assert_eq!(w.uniques[1].bytes_read, 4);
        },
        Step::Done => panic!("two candidates were read"),
    }
    assert!(matches!(run.step(Vec::new()), Step::Done));
}

#[test]
fn step_with_zero_budget_takes_nothing_off_the_pool() {
    let mut run = Fddup::new(options(4, 0));
    run.load(vec![mk_pd("a", 16), mk_pd("b", 16)]);
    match run.step(Vec::new()) {
        Step::Round(w) => {
            assert!(w.work.is_empty() && w.duplicates.is_empty() && w.uniques.is_empty());
        },
        Step::Done => panic!("the pool was not empty"),
    }
    assert_eq!(run.pending(), 2);
}
