use next_client::tree::{check_records, EntryKind, Tree};

struct Lcg(u64);

impl Lcg {
    fn next(&mut self, n: usize) -> usize {
        self.0 = self.0.wrapping_mul(6364136223846793005).wrapping_add(1442695040888963407);
        ((self.0 >> 33) as usize) % n
    }
}

const PATHS: [&str; 9] = ["/a", "/b", "/a/x", "/a/y", "/b/z", "/a/x/q", "/c", "/b/z/w", "bad"];

#[test]
fn invariants_hold_over_random_operation_sequences() {
    for seed in 0..40u64 {
        let mut rng = Lcg(seed);
        let mut t = Tree::new();
        for _ in 0..200 {
            let p = PATHS[rng.next(PATHS.len())].to_string();
            let q = PATHS[rng.next(PATHS.len())].to_string();
            match rng.next(6) {
                0 => {
                    let _ = t.insert(p, EntryKind::Directory, None, None);
                }
                1 => {
                    let _ = t.insert(p, EntryKind::File, Some("e".to_string()), Some(1));
                }
                2 => {
                    let _ = t.upsert_file(p, Some("f".to_string()), None);
                }
                3 => {
                    let had = t.get(&p).is_some();
                    let removed = t.remove(&p).is_some();
                    assert_eq!(removed, had && p != "/");
                    assert!(t.get(&p).is_none() || p == "/");
                }
                4 => {
                    let before = t.entries.len();
                    if t.rename(&p, &q).is_ok() {
                        assert!(t.get(&q).is_some());
                        assert!(t.get(&p).is_none());
                    }
                    assert_eq!(t.entries.len(), before);
                }
                _ => {
                    let _ = t.set_meta(&p, Some("g".to_string()), Some(2));
                }
            }
            assert!(check_records(&t.entries));
            assert_eq!(t.entries[0].path, "/");
        }
    }
}
