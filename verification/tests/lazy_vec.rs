use lazy_vec::DuplicateOffset;
use lazy_vec::LazyVec;

#[test]
fn init_with_default_len() {
    let v: LazyVec<String, usize> =
        LazyVec::new("Example".to_string(), "a value".to_string());
    assert_eq!(v.len(), 0);
    assert!(v.is_empty());
    assert_eq!(v.capacity(), 4096);
    assert_eq!(v.label(), "Example");
}

#[test]
fn init_with_custom_len() {
    let v: LazyVec<String, usize> =
        LazyVec::with_len("Example".to_string(), 1024, "a value".to_string());
    assert_eq!(v.len(), 0);
    assert!(v.is_empty());
    assert_eq!(v.capacity(), 1024);
    assert_eq!(v.label(), "Example");
}

#[test]
fn push_then_pop_returns_reverse_order() {
    let mut v: LazyVec<String, usize> =
        LazyVec::with_len("rt".to_string(), 2, "d".to_string());
    let vals = ["p", "q", "r", "s", "t"];
    for s in vals {
        v.push(s.to_string());
    }
    assert_eq!(v.len(), 5);
    let mut popped: Vec<String> = Vec::new();
    while !v.is_empty() {
        popped.push(v.pop());
    }
    assert_eq!(v.len(), 0);
    assert_eq!(popped, vec!["t", "s", "r", "q", "p"]);
}

#[test]
fn with_len_cells_not_addressable() {
    let v: LazyVec<String, usize> =
        LazyVec::with_len("empty".to_string(), 8, "x".to_string());
    assert_eq!(v.len(), 0);
    assert!(v.capacity() >= 8);
    for i in 0..8usize {
        assert!(v.get(i).is_none());
        assert!(!v.is_promoted(i));
    }
}

#[test]
fn grow_to_within_capacity_is_noop() {
    let mut v: LazyVec<String, usize> =
        LazyVec::with_len("grow".to_string(), 6, "x".to_string());
    v.push("a".to_string());
    v.push("b".to_string());
    let cap_before = v.capacity();
    let promoted_before: Vec<bool> = (0..cap_before).map(|i| v.is_promoted(i)).collect();
    v.grow_to(4);
    assert_eq!(v.capacity(), cap_before);
    assert_eq!(v.len(), 2);
    let promoted_after: Vec<bool> = (0..cap_before).map(|i| v.is_promoted(i)).collect();
    assert_eq!(promoted_after, promoted_before);
    assert_eq!(v.get(0).unwrap().as_str(), "a");
    assert_eq!(v.get(1).unwrap().as_str(), "b");
}

#[test]
fn grow_to_extends_with_shared_cells() {
    let mut v: LazyVec<String, usize> =
        LazyVec::with_len("grow2".to_string(), 2, "x".to_string());
    v.push("a".to_string());
    v.grow_to(5);
    assert_eq!(v.capacity(), 5);
    assert_eq!(v.len(), 1);
    assert!(v.is_promoted(0));
    for i in 1..5usize {
        assert!(!v.is_promoted(i));
    }
}

#[test]
fn reinit_discards_old_values() {
    let mut v: LazyVec<String, usize> =
        LazyVec::with_len("re".to_string(), 4, "x".to_string());
    v.push("a".to_string());
    v.push("b".to_string());
    v.reinit(4);
    assert_eq!(v.len(), 2);
    assert_eq!(v.capacity(), 4);
    for i in 0..4usize {
        assert!(!v.is_promoted(i));
    }
    // The still-live offsets now read as the default, never the old values.
    assert_eq!(v.get(0).unwrap().as_str(), "x");
    assert_eq!(v.get(1).unwrap().as_str(), "x");
    // A fresh push lands after the preserved logical length and reads back.
    let idx = v.push("c".to_string());
    assert_eq!(idx, 2);
    assert_eq!(v.get(2).unwrap().as_str(), "c");
    assert_eq!(v.get(0).unwrap().as_str(), "x");
}

#[test]
fn reinit_grows_when_needed() {
    let mut v: LazyVec<String, usize> =
        LazyVec::with_len("re2".to_string(), 2, "x".to_string());
    v.reinit(7);
    assert_eq!(v.capacity(), 7);
    assert_eq!(v.len(), 0);
}

#[test]
fn indexed_write_and_read() {
    let mut v: LazyVec<String, usize> =
        LazyVec::with_len("rw".to_string(), 4, "x".to_string());
    v.push("a".to_string());
    v.push("b".to_string());
    v.set(0, "z".to_string());
    assert_eq!(v.get(0).unwrap().as_str(), "z");
    assert_eq!(v.get(1).unwrap().as_str(), "b");
}

#[test]
fn get_mut_promotes_and_writes_back() {
    let mut v: LazyVec<String, usize> =
        LazyVec::with_len("gm".to_string(), 4, "x".to_string());
    v.push("a".to_string());
    v.push("b".to_string());
    v.reinit(4);
    // Offset 0 is live but back to Shared; mutable access promotes it.
    assert!(!v.is_promoted(0));
    {
        let r = v.get_mut(0usize);
        assert_eq!(r.as_str(), "x");
        r.push('!');
    }
    assert!(v.is_promoted(0));
    assert_eq!(v.get(0).unwrap().as_str(), "x!");
    // The untouched neighbour still reads as the default.
    assert_eq!(v.get(1).unwrap().as_str(), "x");
}

#[test]
fn last_accessors() {
    let mut v: LazyVec<String, usize> =
        LazyVec::with_len("last".to_string(), 4, "x".to_string());
    v.push("a".to_string());
    v.push("b".to_string());
    assert_eq!(v.last_idx(), 1);
    assert_eq!(v.last_ref().as_str(), "b");
    {
        let r = v.last_mut();
        *r = "c".to_string();
    }
    assert_eq!(v.last_ref().as_str(), "c");
    assert_eq!(v.get(1).unwrap().as_str(), "c");
    assert_eq!(v.pop(), "c");
}

#[test]
fn iter_is_reverse_order() {
    let mut v: LazyVec<String, usize> =
        LazyVec::with_len("it".to_string(), 4, "x".to_string());
    v.push("a".to_string());
    v.push("b".to_string());
    v.push("c".to_string());
    let seen: Vec<String> = v.iter().into_iter().map(|s| s.clone()).collect();
    assert_eq!(seen, vec!["c", "b", "a"]);
}

#[test]
fn iter_mut_promotes_every_live_cell() {
    let mut v: LazyVec<String, usize> =
        LazyVec::with_len("itm".to_string(), 4, "x".to_string());
    v.push("a".to_string());
    v.push("b".to_string());
    v.reinit(4);
    // Live range is 0..2, both Shared again after the reset.
    let order = v.iter_mut();
    assert_eq!(order, vec![1, 0]);
    assert!(v.is_promoted(0));
    assert!(v.is_promoted(1));
    assert!(!v.is_promoted(2));
    assert_eq!(v.get(0).unwrap().as_str(), "x");
    assert_eq!(v.get(1).unwrap().as_str(), "x");
    // Owned values are preserved by the traversal.
    v.set(0, "y".to_string());
    let order2 = v.iter_mut();
    assert_eq!(order2, vec![1, 0]);
    assert_eq!(v.get(0).unwrap().as_str(), "y");
}

#[test]
fn disjoint_writes_are_independent() {
    let mut v: LazyVec<String, usize> =
        LazyVec::with_len("dj".to_string(), 8, "x".to_string());
    v.push("a".to_string());
    v.push("b".to_string());
    v.push("c".to_string());
    let r = v.get_disjoint_mut(
        vec![0, 2, 5],
        vec!["u".to_string(), "w".to_string(), "z".to_string()],
    );
    assert_eq!(r, Ok(()));
    // Each write is visible through an ordinary indexed read at its own
    // offset, and did not affect the values observed at the others.
    assert_eq!(v.get(0).unwrap().as_str(), "u");
    assert_eq!(v.get(1).unwrap().as_str(), "b");
    assert_eq!(v.get(2).unwrap().as_str(), "w");
    // Offset 5 is beyond the logical length: not addressable by reads,
    // but physically written (the documented relaxation).
    assert!(v.get(5).is_none());
    assert!(v.is_promoted(5));
    assert!(!v.is_promoted(4));
}

#[test]
fn disjoint_write_with_duplicate_offset_fails() {
    let mut v: LazyVec<String, usize> =
        LazyVec::with_len("dup".to_string(), 8, "x".to_string());
    v.push("a".to_string());
    let r = v.get_disjoint_mut(
        vec![3, 3],
        vec!["u".to_string(), "w".to_string()],
    );
    assert_eq!(r, Err(DuplicateOffset));
    // The container is untouched.
    assert_eq!(v.len(), 1);
    assert_eq!(v.get(0).unwrap().as_str(), "a");
    assert!(!v.is_promoted(3));
}

#[test]
fn scenario_capacity_four() {
    let mut v: LazyVec<String, usize> =
        LazyVec::with_len("scenario".to_string(), 4, "x".to_string());
    let i0 = v.push("a".to_string());
    assert_eq!(i0, 0);
    let i1 = v.push("b".to_string());
    assert_eq!(i1, 1);
    assert_eq!(v.pop(), "b");
    assert_eq!(v.len(), 1);
    assert_eq!(v.get(0).unwrap().as_str(), "a");
    assert!(v.get(1).is_none());
}

#[test]
fn push_beyond_capacity_appends() {
    let mut v: LazyVec<String, usize> =
        LazyVec::with_len("app".to_string(), 1, "x".to_string());
    assert_eq!(v.push("a".to_string()), 0);
    assert_eq!(v.push("b".to_string()), 1);
    assert_eq!(v.push("c".to_string()), 2);
    assert_eq!(v.len(), 3);
    assert_eq!(v.capacity(), 3);
    assert_eq!(v.get(2).unwrap().as_str(), "c");
}

#[test]
fn debug_output_names_the_parts() {
    let mut v: LazyVec<String, usize> =
        LazyVec::with_len("dbg".to_string(), 2, "x".to_string());
    v.push("a".to_string());
    let text = format!("{:?}", v);
    assert!(text.contains("dbg"));
    assert!(text.contains("LazyVec"));
    assert!(text.contains("Owned"));
    assert!(text.contains("Shared"));
}

/// A domain-specific index newtype, as a caller of the container would
/// define it.
#[derive(Debug, Clone, Copy, PartialEq, Eq)]
struct SlotId(usize);

impl lazy_vec::RawOffset for SlotId {
    fn raw(&self) -> usize {
        self.0
    }

    fn from_raw(raw: usize) -> Self {
        SlotId(raw)
    }

    fn to_raw(&self) -> usize {
        self.0
    }
}

#[test]
fn custom_index_newtype() {
    let mut v: LazyVec<String, SlotId> =
        LazyVec::with_len("typed".to_string(), 4, "x".to_string());
    let i0 = v.push("a".to_string());
    let i1 = v.push("b".to_string());
    assert_eq!(i0, SlotId(0));
    assert_eq!(i1, SlotId(1));
    assert_eq!(v.get(i1).unwrap().as_str(), "b");
    v.set(i0, "z".to_string());
    assert_eq!(v.get(i0).unwrap().as_str(), "z");
    assert_eq!(v.pop(), "b");
    assert!(v.get(i1).is_none());
}
