use netforge::reliability::seq::SeqId;
use netforge::reliability::slide::{Slide, Track, TrackingSlide};

#[test]
fn test_slide() {
    let mut slide: Slide<u32, 2> = Slide::new();

    slide.push(1);
    slide.push(2);
    slide.push(3);

    // element 1 is evicted on 3rd push, since the slide is only 2 elements long
    assert_eq!(*slide.get(0).unwrap(), 2);
    assert_eq!(*slide.get(1).unwrap(), 3);

    assert_eq!(slide[0], 2);
    assert_eq!(slide[1], 3);
}

#[test]
fn test_iter() {
    let mut slide: TrackingSlide<u32, u8, 4> = TrackingSlide::new(0);

    slide.extend((1..=8).collect());

    assert_eq!(slide.get(&0), None);
    assert_eq!(slide[4], 5);

    let mut values: Vec<(u8, u32)> = Vec::new();
    let mut iter = slide.iter();
    while let Some((i, v)) = iter.next() {
        values.push((i, *v));
    }
    assert_eq!(values, [(4, 5), (5, 6), (6, 7), (7, 8)]);
}

#[test]
fn slide_push_reports_eviction() {
    let mut slide: Slide<char, 3> = Slide::default();
    assert!(slide.is_empty());
    assert_eq!(slide.push('a'), None);
    assert_eq!(slide.push('b'), None);
    assert_eq!(slide.push('c'), None);
    assert!(slide.is_full());
    assert_eq!(slide.push('d'), Some('a'));
    assert_eq!(slide.push('e'), Some('b'));
    assert_eq!(slide.len(), 3);
    assert_eq!(slide.oldest(), Some(&'c'));
    assert_eq!(slide.get(2), Some(&'e'));
}

#[test]
fn slide_get_before_full() {
    let mut slide: Slide<u8, 4> = Slide::new();
    slide.push(10);
    slide.push(20);
    assert_eq!(slide.get(0), Some(&10));
    assert_eq!(slide.get(1), Some(&20));
    assert_eq!(slide.get(2), None);
    *slide.get_mut(1).unwrap() = 21;
    assert_eq!(slide[1], 21);
    *slide.oldest_mut().unwrap() += 1;
    assert_eq!(slide[0], 11);
    assert_eq!(slide.get_mut(3), None);
}

#[test]
fn slide_extend_keeps_latest() {
    let mut slide: Slide<u8, 3> = Slide::new();
    slide.push(1);
    slide.extend(vec![2, 3]);
    assert_eq!(slide.fast_iter().len(), 3);
    slide.extend(vec![4, 5, 6, 7, 8]);
    let mut seen = Vec::new();
    let mut iter = slide.ordered_iter();
    while let Some(v) = iter.next() {
        seen.push(*v);
    }
    assert_eq!(seen, vec![6, 7, 8]);
}

#[test]
fn slide_fast_iter_is_rotated_storage() {
    let mut slide: Slide<u8, 3> = Slide::new();
    for v in 1..=4 {
        slide.push(v);
    }
    // storage holds [4, 2, 3], the oldest element sits at position 1
    assert_eq!(slide.fast_iter(), &[4, 2, 3]);
    assert_eq!(slide[0], 2);
}

#[test]
fn slide_ordered_iter_mut_updates() {
    let mut slide: Slide<u32, 2> = Slide::new();
    slide.extend(vec![1, 2, 3]);
    let mut iter = slide.ordered_iter_mut();
    while let Some(v) = iter.next() {
        *v *= 10;
    }
    assert_eq!(slide[0], 20);
    assert_eq!(slide[1], 30);
}

#[test]
fn slide_map_keeps_order() {
    let mut slide: Slide<u32, 3> = Slide::new();
    slide.extend(vec![1, 2, 3, 4]);
    let mapped = slide.map(|x| x as u64 * 2);
    assert_eq!(mapped[0], 4);
    assert_eq!(mapped[2], 8);
    let boxed = Slide::<u32, 3>::boxed();
    assert_eq!(boxed.len(), 0);
    let mut full: Box<Slide<u8, 2>> = Slide::boxed();
    full.push(7);
    let mapped = full.map_boxed(|x| x + 1);
    assert_eq!(mapped[0], 8);
}

#[test]
fn slide_clone_copies_elements() {
    let mut slide: Slide<String, 2> = Slide::new();
    slide.extend(vec!["a".to_string(), "b".to_string(), "c".to_string()]);
    let copy = slide.clone();
    assert_eq!(copy[0], "b");
    assert_eq!(copy[1], "c");
}

#[test]
fn tracking_slide_push_steps_index() {
    let mut slide: TrackingSlide<&str, u16, 2> = TrackingSlide::new(100);
    assert_eq!(slide.push("x"), None);
    assert_eq!(slide.push("y"), None);
    assert_eq!(slide.push("z"), Some("x"));
    assert_eq!(slide.get(&100), None);
    assert_eq!(slide.get(&101), Some(&"y"));
    assert_eq!(slide.get(&102), Some(&"z"));
    assert_eq!(slide.get(&103), None);
    assert_eq!(slide[&102], "z");
    *slide.get_mut(&101).unwrap() = "w";
    assert_eq!(slide.oldest(), Some(&"w"));
    assert_eq!(slide.len(), 2);
    assert!(slide.is_full());
}

#[test]
fn tracking_slide_with_seq_ids_wraps() {
    let mut slide: TrackingSlide<u8, SeqId, 2> = TrackingSlide::new(SeqId(65_535));
    slide.extend(vec![1, 2, 3]);
    assert_eq!(slide.get(&SeqId(65_535)), None);
    assert_eq!(slide.get(&SeqId(0)), Some(&2));
    assert_eq!(slide.get(&SeqId(1)), Some(&3));
    let mut pairs = Vec::new();
    let mut iter = slide.iter_mut();
    while let Some((i, v)) = iter.next() {
        *v += 1;
        pairs.push(i);
    }
    assert_eq!(pairs, vec![SeqId(0), SeqId(1)]);
    assert_eq!(slide[SeqId(1)], 4);
}

#[test]
fn tracking_slide_maps() {
    let mut slide: TrackingSlide<u8, u32, 3> = TrackingSlide::default();
    slide.extend(vec![1, 2, 3, 4, 5]);
    let doubled = slide.map_elems(|x| x as u16 * 2);
    assert_eq!(doubled[2], 6);
    let moved = doubled.map(|x| x + 1, |i| i as u64 + 10);
    assert_eq!(moved.get(&12), Some(&7));
    let boxed: Box<TrackingSlide<u8, u8, 2>> = TrackingSlide::boxed(5);
    assert!(boxed.is_empty());
    let boxed = boxed.map_boxed_elems(|x| x as u32);
    assert_eq!(boxed.len(), 0);
}

#[test]
fn track_relative_indices() {
    assert_eq!(SeqId(3).relative_to(&SeqId(65_534)), 5);
    assert!(SeqId(65_534).is_before(&SeqId(3)));
    let mut x = 7u8;
    x.inc();
    assert_eq!(x, 8);
    assert_eq!(9u64.relative_to(&4), 5);
    assert!(2usize.is_before(&3));
}

#[test]
fn iterators_report_remaining_length() {
    let mut slide: Slide<u32, 4> = Slide::new();
    slide.push(1);
    slide.push(2);
    slide.push(3);
    let mut it = slide.ordered_iter();
    assert_eq!(it.size_hint(), (3, Some(3)));
    it.next();
    assert_eq!(it.size_hint(), (2, Some(2)));
    let mut it = slide.ordered_iter_mut();
    it.next();
    it.next();
    it.next();
    assert_eq!(it.size_hint(), (0, Some(0)));

    let mut tracking: TrackingSlide<u32, SeqId, 4> = TrackingSlide::new(SeqId(65_534));
    tracking.push(10);
    tracking.push(11);
    tracking.push(12);
    let mut it = tracking.iter();
    assert_eq!(it.size_hint(), (3, Some(3)));
    it.next();
    it.next();
    assert_eq!(it.size_hint(), (1, Some(1)));
    let mut it = tracking.iter_mut();
    assert_eq!(it.size_hint(), (3, Some(3)));
    it.next();
    assert_eq!(it.size_hint(), (2, Some(2)));
}

#[test]
fn seq_ids_half_way_apart_are_before_each_other() {
    assert!(SeqId(0).is_before(&SeqId(0x8000)));
    assert!(SeqId(0x8000).is_before(&SeqId(0)));
    assert!(SeqId(65_535).is_before(&SeqId(1)));
    assert!(!SeqId(1).is_before(&SeqId(65_535)));
    assert!(!SeqId(7).is_before(&SeqId(7)));
}
