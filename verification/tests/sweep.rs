use comment_purge::filter::filter_marked;
use comment_purge::pattern::{LineMarks, MarkedLine};
use comment_purge::state::State;

/// A small deterministic generator, so that the sweeps are the same on
/// every run.
struct Dice(u64);

impl Dice {
    fn next(&mut self) -> u64 {
        self.0 = self.0.wrapping_mul(6364136223846793005).wrapping_add(1442695040888963407);
        self.0 >> 33
    }

    fn one_in(&mut self, n: u64) -> bool {
        self.next() % n == 0
    }
}

/// Which lines may fire both closers.
#[derive(Clone, Copy, PartialEq)]
enum Both {
    Never,
    WithoutOpener,
    Always,
}

fn random_doc(dice: &mut Dice, both: Both) -> Vec<MarkedLine> {
    let len = (dice.next() % 9) as usize;
    let mut doc = Vec::new();
    for i in 0..len {
        let opens_todo = dice.one_in(3);
        let opens_fix = dice.one_in(5);
        let opens_purge = dice.one_in(5);
        let opens = opens_todo || opens_fix || opens_purge;
        let closes_purge = dice.one_in(3);
        let allowed = match both {
            Both::Never => !closes_purge,
            Both::WithoutOpener => !closes_purge || !opens,
            Both::Always => true,
        };
        let closes_block = dice.one_in(3) && allowed;
        let marks = LineMarks {
            comment: dice.one_in(3),
            opens_todo,
            opens_fix,
            opens_purge,
            closes_purge,
            closes_block,
        };
        let text = match dice.next() % 6 {
            0 => format!("// TODO: {i}"),
            1 => format!("a{i} /*!! x */ b"),
            _ => format!("line {i}"),
        };
        doc.push(MarkedLine { text, marks });
    }
    doc
}

fn fires_both_closers(doc: &[MarkedLine]) -> bool {
    doc.iter().any(|l| l.marks.closes_purge && l.marks.closes_block)
}

#[test]
fn validated_regions_never_touch_when_no_opener_fires_with_both_closers() {
    let mut dice = Dice(31);
    let mut validated = 0;
    let mut with_both = 0;
    for _ in 0..300_000 {
        let doc = random_doc(&mut dice, Both::WithoutOpener);
        let mut state = State::new();
        if state.scan_marked(&doc).is_err() || state.validate_multiline().is_err() {
            continue;
        }
        validated += 1;
        if state.closed.len() >= 2 && fires_both_closers(&doc) {
            with_both += 1;
        }
        for pair in state.closed.windows(2) {
            assert!(pair[0].start <= pair[0].end);
            assert!(pair[0].end < pair[1].start, "{:?}", state.closed);
        }
    }
    assert!(validated > 1000);
    assert!(with_both > 10);
}

#[test]
fn validated_regions_never_touch_when_one_closer_fires_per_line() {
    let mut dice = Dice(7);
    let mut validated = 0;
    let mut with_two_regions = 0;
    for _ in 0..200_000 {
        let doc = random_doc(&mut dice, Both::Never);
        let mut state = State::new();
        if state.scan_marked(&doc).is_err() || state.validate_multiline().is_err() {
            continue;
        }
        validated += 1;
        if state.closed.len() >= 2 {
            with_two_regions += 1;
        }
        for pair in state.closed.windows(2) {
            assert!(pair[0].start <= pair[0].end);
            assert!(pair[0].end < pair[1].start, "{:?}", state.closed);
        }
    }
    assert!(validated > 1000);
    assert!(with_two_regions > 100);
}

#[test]
fn validated_regions_can_touch_when_an_opener_fires_with_both_closers() {
    let mut dice = Dice(11);
    let mut touching = 0;
    for _ in 0..200_000 {
        let doc = random_doc(&mut dice, Both::Always);
        let mut state = State::new();
        if state.scan_marked(&doc).is_err() || state.validate_multiline().is_err() {
            continue;
        }
        for pair in state.closed.windows(2) {
            assert!(pair[0].end <= pair[1].start);
            if pair[0].end == pair[1].start {
                touching += 1;
            }
        }
    }
    assert!(touching > 0);
}

#[test]
fn kept_lines_are_the_lines_outside_regions_that_were_not_swallowed() {
    let mut dice = Dice(23);
    let mut accepted = 0;
    for _ in 0..100_000 {
        let doc = random_doc(&mut dice, Both::Always);
        let kept = match filter_marked(&doc) {
            Ok(kept) => kept,
            Err(_) => continue,
        };
        accepted += 1;
        let mut state = State::new();
        state.scan_marked(&doc).unwrap();
        state.validate_multiline().unwrap();
        let mut expected = Vec::new();
        let mut suppressing = false;
        for (i, line) in doc.iter().enumerate() {
            let trigger = line.text.contains("// FIX") || line.text.contains("// TODO:");
            let swallowed = line.marks.comment && (suppressing || trigger);
            suppressing = swallowed;
            let covered = state.closed.iter().any(|r| r.start <= i && i <= r.end);
            if swallowed || covered {
                continue;
            }
            if line.text.contains("/*!!") {
                expected.push(line.text.replace("/*!! x */", ""));
            } else {
                expected.push(line.text.clone());
            }
        }
        assert_eq!(kept, expected);
    }
    assert!(accepted > 1000);
}
