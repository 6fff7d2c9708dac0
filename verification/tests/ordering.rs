use std::cmp::Ordering;

use rocfl_listing::command::{print_object_contents, report_lookup, List, Output};
use rocfl_listing::listing::{FileDetails, FileEntry, Listing, ObjectVersionView};
use rocfl_listing::order::{negate, Field};
use rocfl_listing::sort::sorted_order;
use rocfl_listing::time::Timestamp;
use rocfl_listing::version::VersionId;

fn file(path: &str, version: i64, secs: i64, offset: i32) -> FileEntry {
    FileEntry {
        path: String::from(path),
        details: FileDetails {
            last_update_version: VersionId::from_integer(version).unwrap(),
            last_update_created: Timestamp::new(secs, 0, offset).unwrap(),
            storage_path: format!("v{}/content/{}", version, path),
            digest: format!("d-{}", path),
        },
    }
}

fn object(state: Vec<FileEntry>) -> ObjectVersionView {
    ObjectVersionView {
        id: String::from("obj-1"),
        version: VersionId::from_integer(10).unwrap(),
        created: Timestamp::new(0, 0, 0).unwrap(),
        root: String::from("root/obj-1"),
        digest_algorithm: String::from("sha512"),
        state,
    }
}

fn by(sort: Field, reverse: bool) -> List {
    List { long: false, physical: false, digest: false, version: None, sort, reverse, object_id: None }
}

fn names(object: &ObjectVersionView, sort: Field, reverse: bool) -> Vec<String> {
    print_object_contents(object, &by(sort, reverse))
        .iter()
        .map(|l| l.trim_end().to_string())
        .collect()
}

fn sample() -> ObjectVersionView {
    object(vec![
        file("c.txt", 10, 300, 0),
        file("a.txt", 2, 200, 0),
        file("d.txt", 2, 100, 0),
        file("b.txt", 1, 200, 0),
    ])
}

#[test]
fn version_two_sorts_before_version_ten() {
    let o = object(vec![file("ten", 10, 0, 0), file("two", 2, 0, 0)]);
    assert_eq!(names(&o, Field::Version, false), vec!["two", "ten"]);
    let a = String::from("ten");
    let b = String::from("two");
    let alg = String::from("sha512");
    let ten = Listing::new(&a, &o.state[0].details, &alg);
    let two = Listing::new(&b, &o.state[1].details, &alg);
    assert_eq!(Field::Version.cmp_listings(&two, &ten), Ordering::Less);
    assert_eq!(Field::Version.cmp_listings(&ten, &two), Ordering::Greater);
    assert_eq!(Field::Version.cmp_listings(&ten, &ten), Ordering::Equal);
}

#[test]
fn sort_by_name_is_by_code_point() {
    let o = object(vec![
        file("b", 1, 0, 0),
        file("a/z", 1, 0, 0),
        file("B", 1, 0, 0),
        file("a", 1, 0, 0),
        file("é", 1, 0, 0),
        file("ab", 1, 0, 0),
    ]);
    assert_eq!(names(&o, Field::Name, false), vec!["B", "a", "a/z", "ab", "b", "é"]);
    assert_eq!(names(&o, Field::Name, true), vec!["é", "b", "ab", "a/z", "a", "B"]);
}

#[test]
fn sort_by_version_keeps_ties_in_input_order() {
    assert_eq!(names(&sample(), Field::Version, false), vec!["b.txt", "a.txt", "d.txt", "c.txt"]);
}

#[test]
fn reverse_mirrors_but_keeps_ties_in_input_order() {
    assert_eq!(names(&sample(), Field::Version, true), vec!["c.txt", "a.txt", "d.txt", "b.txt"]);
    assert_eq!(names(&sample(), Field::Updated, false), vec!["d.txt", "a.txt", "b.txt", "c.txt"]);
    assert_eq!(names(&sample(), Field::Updated, true), vec!["c.txt", "a.txt", "b.txt", "d.txt"]);
}

#[test]
fn reverse_of_distinct_keys_is_the_exact_reverse() {
    let forward = names(&sample(), Field::Name, false);
    let mut backward = names(&sample(), Field::Name, true);
    assert_eq!(forward, vec!["a.txt", "b.txt", "c.txt", "d.txt"]);
    backward.reverse();
    assert_eq!(forward, backward);
}

#[test]
fn unsorted_keeps_input_order_in_both_directions() {
    let input = vec!["c.txt", "a.txt", "d.txt", "b.txt"];
    assert_eq!(names(&sample(), Field::Unsorted, false), input);
    assert_eq!(names(&sample(), Field::Unsorted, true), input);
}

#[test]
fn update_times_compare_as_instants() {
    let o = object(vec![
        file("late-shown-early", 1, 7200, -36000),
        file("early-shown-late", 1, 3600, 36000),
        file("same-instant", 1, 3600, 0),
    ]);
    assert_eq!(
        names(&o, Field::Updated, false),
        vec!["early-shown-late", "same-instant", "late-shown-early"]
    );
}

#[test]
fn nanoseconds_break_equal_seconds() {
    let mut o = object(vec![file("later", 1, 50, 0), file("sooner", 1, 50, 0)]);
    o.state[0].details.last_update_created = Timestamp::new(50, 2, 0).unwrap();
    o.state[1].details.last_update_created = Timestamp::new(50, 1, 0).unwrap();
    assert_eq!(names(&o, Field::Updated, false), vec!["sooner", "later"]);
}

#[test]
fn sorted_order_is_a_list_of_indices() {
    let o = sample();
    let entries: Vec<Listing> =
        o.state.iter().map(|e| Listing::new(&e.path, &e.details, &o.digest_algorithm)).collect();
    assert_eq!(sorted_order(&entries, Field::Name, false), vec![1, 3, 0, 2]);
    assert_eq!(sorted_order(&entries, Field::Name, true), vec![2, 0, 3, 1]);
    assert_eq!(sorted_order(&entries, Field::Version, false), vec![3, 1, 2, 0]);
    assert_eq!(sorted_order(&entries, Field::Version, true), vec![0, 1, 2, 3]);
    assert_eq!(sorted_order(&entries, Field::Unsorted, true), vec![0, 1, 2, 3]);
    assert_eq!(sorted_order(&Vec::new(), Field::Name, false), Vec::<usize>::new());
}

#[test]
fn directed_comparison_negates_the_result() {
    let o = sample();
    let entries: Vec<Listing> =
        o.state.iter().map(|e| Listing::new(&e.path, &e.details, &o.digest_algorithm)).collect();
    assert_eq!(Field::Name.cmp_directed(false, &entries[0], &entries[1]), Ordering::Greater);
    assert_eq!(Field::Name.cmp_directed(true, &entries[0], &entries[1]), Ordering::Less);
    assert_eq!(Field::Version.cmp_directed(true, &entries[1], &entries[2]), Ordering::Equal);
    assert!(Field::Name.ranks_after(false, &entries[0], &entries[1]));
    assert!(!Field::Name.ranks_after(true, &entries[0], &entries[1]));
    assert_eq!(negate(Ordering::Less), Ordering::Greater);
    assert_eq!(negate(Ordering::Equal), Ordering::Equal);
    assert_eq!(negate(Ordering::Greater), Ordering::Less);
}

#[test]
fn empty_object_lists_nothing() {
    assert!(print_object_contents(&object(vec![]), &by(Field::Name, false)).is_empty());
}

#[test]
fn found_object_is_listed_in_sorted_order() {
    let mut command = by(Field::Version, false);
    command.long = true;
    command.digest = true;
    let out = report_lookup(&Ok(Some(sample())), "obj-1", None, &command, false);
    let lines: Vec<String> = out
        .iter()
        .map(|o| match o {
            Output::Line(s) => s.clone(),
            Output::Error(s) => panic!("unexpected error: {}", s),
        })
        .collect();
    assert_eq!(
        lines,
        vec![
            format!("   v1\t1970-01-01 00:03:20\t{:<42}\tsha512:d-b.txt", "b.txt"),
            format!("   v2\t1970-01-01 00:03:20\t{:<42}\tsha512:d-a.txt", "a.txt"),
            format!("   v2\t1970-01-01 00:01:40\t{:<42}\tsha512:d-d.txt", "d.txt"),
            format!("  v10\t1970-01-01 00:05:00\t{:<42}\tsha512:d-c.txt", "c.txt"),
        ]
    );
}

#[test]
fn large_listing_matches_a_stable_sort_by_key() {
    let mut state = Vec::new();
    let mut seed: u64 = 12345;
    for n in 0..500 {
        seed = seed.wrapping_mul(6364136223846793005).wrapping_add(1442695040888963407);
        let version = ((seed >> 33) % 7) as i64 + 1;
        let secs = ((seed >> 20) % 50) as i64;
        state.push(file(&format!("f{:03}", (seed >> 40) % 1000), version, secs, 0));
        state[n].details.digest = format!("{}", n);
    }
    let o = object(state);
    let entries: Vec<Listing> =
        o.state.iter().map(|e| Listing::new(&e.path, &e.details, &o.digest_algorithm)).collect();

    let mut by_version: Vec<usize> = (0..entries.len()).collect();
    by_version.sort_by_key(|&i| entries[i].version.number());
    assert_eq!(sorted_order(&entries, Field::Version, false), by_version);

    let mut by_version_down: Vec<usize> = (0..entries.len()).collect();
    by_version_down.sort_by_key(|&i| std::cmp::Reverse(entries[i].version.number()));
    assert_eq!(sorted_order(&entries, Field::Version, true), by_version_down);

    let mut by_time: Vec<usize> = (0..entries.len()).collect();
    by_time.sort_by_key(|&i| entries[i].updated.timestamp());
    assert_eq!(sorted_order(&entries, Field::Updated, false), by_time);

    let mut by_name: Vec<usize> = (0..entries.len()).collect();
    by_name.sort_by_key(|&i| entries[i].name.clone());
    assert_eq!(sorted_order(&entries, Field::Name, false), by_name);

    let unsorted: Vec<usize> = (0..entries.len()).collect();
    assert_eq!(sorted_order(&entries, Field::Unsorted, false), unsorted);
    assert_eq!(sorted_order(&entries, Field::Unsorted, true), unsorted);
}
