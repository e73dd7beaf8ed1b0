use tlsn_disclosure::range_set::{ByteRange, ByteRangeSet};

/// A small generator of numbers, the same on every run.
struct Numbers(u64);

impl Numbers {
    fn next(&mut self, below: usize) -> usize {
        self.0 = self.0.wrapping_mul(6364136223846793005).wrapping_add(1442695040888963407);
        ((self.0 >> 33) as usize) % below
    }
}

/// A set over `len` positions beside the same set as one flag per position.
fn random_set(numbers: &mut Numbers, len: usize) -> (ByteRangeSet, Vec<bool>) {
    let mut set = ByteRangeSet::new(len);
    let mut model = vec![false; len];
    for _ in 0..numbers.next(6) {
        let start = numbers.next(len + 1);
        let end = start + numbers.next(len + 1 - start);
        assert_eq!(set.insert(ByteRange { start, end }), Ok(()));
        for flag in &mut model[start..end] {
            *flag = true;
        }
    }
    (set, model)
}

/// The ranges of the positions that are set in `model`, from left to right.
fn ranges_of(model: &[bool]) -> Vec<ByteRange> {
    let mut ranges = Vec::new();
    let mut start = None;
    for (i, flag) in model.iter().enumerate() {
        match (start, *flag) {
            (None, true) => start = Some(i),
            (Some(s), false) => {
                ranges.push(ByteRange { start: s, end: i });
                start = None;
            }
            _ => {}
        }
    }
    if let Some(s) = start {
        ranges.push(ByteRange { start: s, end: model.len() });
    }
    ranges
}

#[test]
fn sets_agree_with_a_model_of_flags() {
    let mut numbers = Numbers(7);
    for round in 0..300 {
        let len = 1 + numbers.next(40);
        let (set, model) = random_set(&mut numbers, len);
        assert_eq!(set.ranges(), ranges_of(&model), "round {round}");
        for (i, flag) in model.iter().enumerate() {
            assert_eq!(set.contains(i), *flag);
        }
        assert!(!set.contains(len));
    }
}

#[test]
fn complements_agree_with_a_model_of_flags() {
    let mut numbers = Numbers(11);
    for round in 0..300 {
        let len = 1 + numbers.next(40);
        let (set, model) = random_set(&mut numbers, len);
        let over = numbers.next(len + 8);
        let expected: Vec<bool> = (0..over).map(|i| i >= len || !model[i]).collect();
        assert_eq!(set.complement(over).ranges(), ranges_of(&expected), "round {round}");

        let gaps = set.complement(len);
        assert_eq!(gaps.complement(len).ranges(), set.ranges());
        assert!(gaps.complement(len).same_positions(&set));
        assert!(set.is_disjoint_from(&gaps));
        assert_eq!(set.union(&gaps).ranges(), vec![ByteRange { start: 0, end: len }]);
        assert!(set.is_complement_of(&gaps));
    }
}

#[test]
fn unions_and_disjointness_agree_with_a_model_of_flags() {
    let mut numbers = Numbers(13);
    for round in 0..300 {
        let len_a = 1 + numbers.next(30);
        let len_b = 1 + numbers.next(30);
        let (a, model_a) = random_set(&mut numbers, len_a);
        let (b, model_b) = random_set(&mut numbers, len_b);
        let len = len_a.max(len_b);
        let at = |model: &Vec<bool>, i: usize| i < model.len() && model[i];
        let both: Vec<bool> = (0..len).map(|i| at(&model_a, i) || at(&model_b, i)).collect();
        let shared = (0..len).any(|i| at(&model_a, i) && at(&model_b, i));
        let union = a.union(&b);
        assert_eq!(union.ranges(), ranges_of(&both), "round {round}");
        assert_eq!(union.buffer_len(), len);
        assert_eq!(a.is_disjoint_from(&b), !shared);
        assert_eq!(b.is_disjoint_from(&a), !shared);
        let same = (0..len).all(|i| at(&model_a, i) == at(&model_b, i));
        assert_eq!(a.same_positions(&b), same);
    }
}
