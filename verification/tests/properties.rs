use zalgo::{
    all_chars, apply_iter, apply_rng, apply_rng_iter, is_zalgo, unapply, unapply_iter, CharKind,
    Intensity, RandomSource, State, DOWN_CHARS, MIDDLE_CHARS, UP_CHARS,
};

fn chacha() -> RandomSource {
    RandomSource::ChaCha(rand::ChaChaRng::new_unseeded())
}

fn xorshift() -> RandomSource {
    RandomSource::XorShift(rand::XorShiftRng::new_unseeded())
}

fn every_source() -> Vec<RandomSource> {
    vec![
        chacha(),
        RandomSource::Isaac(rand::IsaacRng::new_unseeded()),
        RandomSource::Isaac64(rand::Isaac64Rng::new_unseeded()),
        RandomSource::Thread(rand::thread_rng()),
        xorshift(),
    ]
}

fn ticks() -> u64 {
    let since = std::time::SystemTime::now().duration_since(std::time::UNIX_EPOCH).unwrap();
    since.as_secs() * 1_000_000_000 + u64::from(since.subsec_nanos())
}

fn every_kind() -> Vec<CharKind> {
    (0u8..8).map(|bits| CharKind::from_bits(bits).unwrap()).collect()
}

fn every_intensity() -> Vec<Intensity> {
    vec![
        Intensity::Mini,
        Intensity::Normal,
        Intensity::Maxi,
        Intensity::Random,
        Intensity::Custom { up: 0, middle: 0, down: 0 },
        Intensity::Custom { up: 2, middle: 1, down: 3 },
    ]
}

fn table_of(i: usize) -> char {
    if i < 50 {
        UP_CHARS[i]
    } else if i < 73 {
        MIDDLE_CHARS[i - 50]
    } else {
        DOWN_CHARS[i - 73]
    }
}

fn enabled_sum(kind: CharKind, up: usize, middle: usize, down: usize) -> usize {
    let mut sum = 0;
    if kind.contains(CharKind::up()) {
        sum += up;
    }
    if kind.contains(CharKind::middle()) {
        sum += middle;
    }
    if kind.contains(CharKind::down()) {
        sum += down;
    }
    sum
}

/// The bursts of a decoration of a text without marks: for each character of
/// the text the marks that follow it.
fn bursts_of(out: &str) -> Vec<Vec<char>> {
    let mut bursts: Vec<Vec<char>> = Vec::new();
    for c in out.chars() {
        if is_zalgo(c) {
            bursts.last_mut().unwrap().push(c);
        } else {
            bursts.push(Vec::new());
        }
    }
    bursts
}

#[test]
fn tables_hold_113_distinct_marks() {
    assert_eq!(UP_CHARS.len(), 50);
    assert_eq!(MIDDLE_CHARS.len(), 23);
    assert_eq!(DOWN_CHARS.len(), 40);
    let mut seen: Vec<char> = Vec::new();
    let mut marks = all_chars();
    while let Some(c) = marks.next() {
        assert!(!seen.contains(&c));
        seen.push(c);
    }
    assert_eq!(seen.len(), 113);
    assert_eq!(seen[0], '\u{30d}');
    assert_eq!(seen[50], '\u{315}');
    assert_eq!(seen[73], '\u{316}');
    assert_eq!(seen[112], '\u{323}');
}

#[test]
fn enumerator_front_then_back_meets_at_every_split() {
    for k in 0..=113usize {
        let mut marks = all_chars();
        for i in 0..k {
            assert_eq!(marks.next(), Some(table_of(i)));
        }
        for i in (k..113).rev() {
            assert_eq!(marks.len(), i + 1 - k);
            assert_eq!(marks.next_back(), Some(table_of(i)));
        }
        assert!(marks.is_empty());
        assert_eq!(marks.next(), None);
        assert_eq!(marks.next_back(), None);
        assert_eq!(marks.next(), None);
        assert_eq!(marks.len(), 0);
    }
}

#[test]
fn enumerator_pulls_may_alternate() {
    let mut marks = all_chars();
    let mut front = 0;
    let mut back = 113;
    while front < back {
        assert_eq!(marks.next(), Some(table_of(front)));
        front += 1;
        if front < back {
            back -= 1;
            assert_eq!(marks.next_back(), Some(table_of(back)));
        }
        assert_eq!(marks.size_hint(), (back - front, Some(back - front)));
    }
    assert_eq!(marks.next_back(), None);
    assert_eq!(marks.next(), None);
}

#[test]
fn enumerator_nth_skips() {
    let mut marks = all_chars();
    assert_eq!(marks.nth(0), Some(table_of(0)));
    assert_eq!(marks.nth(9), Some(table_of(10)));
    assert_eq!(marks.len(), 102);
    assert_eq!(marks.nth(49), Some(table_of(60)));
    assert_eq!(marks.next_back(), Some(table_of(112)));
    assert_eq!(marks.nth(50), Some(table_of(111)));
    assert_eq!(marks.len(), 0);
    assert_eq!(marks.nth(0), None);

    let mut marks = all_chars();
    assert_eq!(marks.nth(113), None);
    assert_eq!(marks.len(), 0);
    assert_eq!(marks.next_back(), None);

    let mut marks = all_chars();
    assert_eq!(marks.nth(112), Some(table_of(112)));
    assert_eq!(marks.last(), None);
}

#[test]
fn membership_is_being_in_a_table() {
    assert!(is_zalgo('\u{489}'));
    assert!(!is_zalgo('a'));
    for c in ['a', 'Z', '0', '9', ' ', '.', ',', '!', '\n', '\u{e9}', '\u{300b}', '\u{1f600}'] {
        assert!(!is_zalgo(c));
    }
    for table in [&UP_CHARS[..], &MIDDLE_CHARS[..], &DOWN_CHARS[..]] {
        for &c in table {
            assert!(is_zalgo(c));
        }
    }
    let mut marks = all_chars();
    while let Some(c) = marks.next() {
        assert!(is_zalgo(c));
    }
    for code in 0x300u32..0x370 {
        let c = char::from_u32(code).unwrap();
        let held = UP_CHARS.contains(&c) || MIDDLE_CHARS.contains(&c) || DOWN_CHARS.contains(&c);
        assert_eq!(is_zalgo(c), held);
    }
}

#[test]
fn empty_selector_gives_the_text_back() {
    for text in ["", "text", "two words", "a\u{301}b\u{489}", "\u{316}\u{316}"] {
        for intensity in every_intensity() {
            for rng in every_source() {
                assert_eq!(apply_rng(rng, text, CharKind::empty(), intensity), text);
            }
        }
    }
}

#[test]
fn exact_zero_counts_give_the_text_back() {
    let none = Intensity::Custom { up: 0, middle: 0, down: 0 };
    for text in ["", "text", "two words", "a\u{301}b\u{489}", "\u{316}\u{316}"] {
        for kind in every_kind() {
            assert_eq!(apply_rng(chacha(), text, kind, none), text);
            assert_eq!(apply_rng(xorshift(), text, kind, none), text);
        }
    }
}

#[test]
fn exact_counts_fix_the_length() {
    let all = CharKind::all();
    for (text, len) in [("", 0usize), ("t", 1), ("text", 4), ("hello, world", 12)] {
        for (up, middle, down) in [(0usize, 0usize, 0usize), (1, 0, 0), (1, 2, 3), (100, 100, 100)]
        {
            let intensity = Intensity::Custom { up, middle, down };
            let out = apply_rng(chacha(), text, all, intensity);
            assert_eq!(out.chars().count(), len * (1 + up + middle + down));
        }
    }
    assert_eq!(
        apply_rng(xorshift(), "text", all, Intensity::Custom { up: 1, middle: 2, down: 3 })
            .chars()
            .count(),
        28
    );
}

#[test]
fn exact_counts_of_disabled_classes_add_nothing() {
    for kind in every_kind() {
        let intensity = Intensity::Custom { up: 2, middle: 1, down: 3 };
        let out = apply_rng(chacha(), "text", kind, intensity);
        assert_eq!(out.chars().count(), 4 + 4 * enabled_sum(kind, 2, 1, 3));
        for burst in bursts_of(&out) {
            let mut at = 0;
            if kind.contains(CharKind::up()) {
                assert!(burst[at..at + 2].iter().all(|c| UP_CHARS.contains(c)));
                at += 2;
            }
            if kind.contains(CharKind::middle()) {
                assert!(burst[at..at + 1].iter().all(|c| MIDDLE_CHARS.contains(c)));
                at += 1;
            }
            if kind.contains(CharKind::down()) {
                assert!(burst[at..at + 3].iter().all(|c| DOWN_CHARS.contains(c)));
                at += 3;
            }
            assert_eq!(burst.len(), at);
        }
    }
}

#[test]
fn stripping_a_decoration_gives_the_text_back() {
    for text in ["", "foo", "text", zalgo::DESCRIPTION] {
        for kind in every_kind() {
            for intensity in every_intensity() {
                for rng in every_source() {
                    assert_eq!(unapply(&apply_rng(rng, text, kind, intensity)), text);
                }
            }
        }
    }
}

#[test]
fn sources_of_the_machine_decorate_too() {
    let sources = vec![
        RandomSource::Jitter(rand::JitterRng::new_with_timer(ticks)),
        RandomSource::Os(rand::OsRng::new().unwrap()),
        RandomSource::Std(rand::StdRng::new().unwrap()),
    ];
    for rng in sources {
        let out = apply_rng(rng, "foo", CharKind::all(), Intensity::Normal);
        assert_eq!(unapply(&out), "foo");
        for burst in bursts_of(&out) {
            let (up, middle, down) = class_counts(&burst, CharKind::all());
            assert!(1 <= up && up <= 8 && middle <= 2 && 1 <= down && down <= 8);
        }
    }
}

#[test]
fn marks_of_the_text_pass_through_without_a_burst() {
    let intensity = Intensity::Custom { up: 1, middle: 0, down: 0 };
    let out: Vec<char> =
        apply_rng(chacha(), "a\u{301}b", CharKind::up(), intensity).chars().collect();
    assert_eq!(out.len(), 5);
    assert_eq!(out[0], 'a');
    assert!(UP_CHARS.contains(&out[1]));
    assert_eq!(out[2], '\u{301}');
    assert_eq!(out[3], 'b');
    assert!(UP_CHARS.contains(&out[4]));

    for intensity in every_intensity() {
        for kind in every_kind() {
            let marks = "\u{316}\u{489}\u{30d}";
            assert_eq!(apply_rng(xorshift(), marks, kind, intensity), marks);
        }
    }

    let decorated = apply_rng(chacha(), "text", CharKind::all(), Intensity::Maxi);
    let again = apply_rng(chacha(), &decorated, CharKind::empty(), Intensity::Maxi);
    assert_eq!(again, decorated);
}

#[test]
fn same_source_same_decoration() {
    let none = Intensity::Custom { up: 0, middle: 0, down: 0 };
    assert_eq!(apply_rng(chacha(), "text", CharKind::all(), none), "text");

    let tiny = apply_rng(chacha(), "text", CharKind::down(), Intensity::Mini);
    assert_eq!(tiny, "tex\u{330}\u{33a}\u{32f}\u{356}\u{331}t\u{353}\u{355}\u{324}");
    assert_eq!(unapply(&tiny), "text");

    for kind in every_kind() {
        for intensity in every_intensity() {
            let first = apply_rng(chacha(), "some text", kind, intensity);
            let second = apply_rng(chacha(), "some text", kind, intensity);
            assert_eq!(first, second);
            let first = apply_rng(xorshift(), "some text", kind, intensity);
            let second = apply_rng(xorshift(), "some text", kind, intensity);
            assert_eq!(first, second);
        }
    }
}

#[test]
fn empty_text_gives_nothing() {
    for kind in every_kind() {
        for intensity in every_intensity() {
            for rng in every_source() {
                assert_eq!(apply_rng(rng, "", kind, intensity), "");
            }
            assert_eq!(zalgo::apply("", kind, intensity), "");
            let mut engine = apply_iter(Vec::new(), kind, intensity);
            assert_eq!(engine.next(), None);
            assert_eq!(engine.next(), None);
        }
    }
    assert_eq!(unapply(""), "");
}

#[test]
fn do_roundtrips_core_empty() {
    for _ in 0..100000 {
        let engine = apply_rng_iter(xorshift(), Vec::new(), CharKind::all(), Intensity::Maxi);
        assert!(unapply_iter(engine.collect()).collect().is_empty());
    }
}

#[test]
fn do_roundtrips_core_foo() {
    for _ in 0..300 {
        let engine =
            apply_rng_iter(xorshift(), "foo".chars().collect(), CharKind::all(), Intensity::Maxi);
        let plain: String = unapply_iter(engine.collect()).collect().into_iter().collect();
        assert_eq!(plain, "foo");
    }
}

#[test]
fn do_roundtrips_std_foo() {
    for _ in 0..300 {
        let engine = apply_iter("foo".chars().collect(), CharKind::all(), Intensity::Maxi);
        let plain: String = unapply_iter(engine.collect()).collect().into_iter().collect();
        assert_eq!(plain, "foo");
        assert_eq!(unapply(&zalgo::apply("foo", CharKind::all(), Intensity::Maxi)), "foo");
    }
}

#[test]
fn do_roundtrips_alloc_empty() {
    for _ in 0..100000 {
        assert_eq!(&unapply(&apply_rng(xorshift(), "", CharKind::all(), Intensity::Maxi)), "");
    }
}

#[test]
fn do_roundtrips_alloc_foo() {
    for _ in 0..300 {
        assert_eq!(&unapply(&apply_rng(xorshift(), "foo", CharKind::all(), Intensity::Maxi)), "foo");
    }
}

#[test]
fn do_roundtrips_alloc_zalgo_description() {
    for _ in 0..50 {
        let text = zalgo::DESCRIPTION;
        assert_eq!(&unapply(&apply_rng(xorshift(), text, CharKind::all(), Intensity::Maxi)), text);
    }
}

#[test]
fn do_roundtrips_alloc_lorem_ipsum() {
    for _ in 0..15 {
        let text = lipsum::LOREM_IPSUM;
        assert_eq!(&unapply(&apply_rng(xorshift(), text, CharKind::all(), Intensity::Maxi)), text);
    }
}

#[test]
fn do_roundtrips_alloc_liber_primus() {
    let text = lipsum::LIBER_PRIMUS;
    assert_eq!(&unapply(&apply_rng(xorshift(), text, CharKind::all(), Intensity::Maxi)), text);
}

#[test]
fn presets_shape_raw_numbers() {
    assert_eq!(Intensity::Mini.shape_counts(0, 0, 0), (0, 0, 0));
    assert_eq!(Intensity::Mini.shape_counts(7, 1, 7), (7, 1, 7));
    assert_eq!(Intensity::Normal.shape_counts(0, 0, 0), (1, 0, 1));
    assert_eq!(Intensity::Normal.shape_counts(15, 5, 15), (8, 2, 8));
    assert_eq!(Intensity::Normal.shape_counts(7, 3, 4), (4, 1, 3));
    assert_eq!(Intensity::Maxi.shape_counts(0, 0, 0), (3, 1, 3));
    assert_eq!(Intensity::Maxi.shape_counts(63, 15, 63), (18, 4, 18));
    assert_eq!(Intensity::Maxi.shape_counts(10, 9, 21), (5, 3, 8));
    assert_eq!(Intensity::Mini.draw_limits(), (8, 2, 8));
    assert_eq!(Intensity::Normal.draw_limits(), (16, 6, 16));
    assert_eq!(Intensity::Maxi.draw_limits(), (64, 16, 64));
}

fn class_counts(burst: &[char], kind: CharKind) -> (usize, usize, usize) {
    // The tables are disjoint, so each mark of a burst tells its class.
    let up = burst.iter().filter(|c| UP_CHARS.contains(c)).count();
    let middle = burst.iter().filter(|c| MIDDLE_CHARS.contains(c)).count();
    let down = burst.iter().filter(|c| DOWN_CHARS.contains(c)).count();
    assert_eq!(up + middle + down, burst.len());
    if !kind.contains(CharKind::up()) {
        assert_eq!(up, 0);
    }
    if !kind.contains(CharKind::middle()) {
        assert_eq!(middle, 0);
    }
    if !kind.contains(CharKind::down()) {
        assert_eq!(down, 0);
    }
    let is_up = |c: &char| UP_CHARS.contains(c);
    let is_middle = |c: &char| MIDDLE_CHARS.contains(c);
    let is_down = |c: &char| DOWN_CHARS.contains(c);
    assert!(burst[..up].iter().all(is_up));
    assert!(burst[up..up + middle].iter().all(is_middle));
    assert!(burst[up + middle..].iter().all(is_down));
    (up, middle, down)
}

#[test]
fn presets_keep_their_ranges() {
    let text = "the quick brown fox jumps over the lazy dog, again and again";
    let all = CharKind::all();
    for rng in every_source() {
        for burst in bursts_of(&apply_rng(rng, text, all, Intensity::Mini)) {
            let (up, middle, down) = class_counts(&burst, all);
            assert!(up < 8 && middle < 2 && down < 8);
        }
    }
    for rng in every_source() {
        for burst in bursts_of(&apply_rng(rng, text, all, Intensity::Normal)) {
            let (up, middle, down) = class_counts(&burst, all);
            assert!(1 <= up && up <= 8 && middle <= 2 && 1 <= down && down <= 8);
        }
    }
    for rng in every_source() {
        for burst in bursts_of(&apply_rng(rng, text, all, Intensity::Maxi)) {
            let (up, middle, down) = class_counts(&burst, all);
            assert!(3 <= up && up <= 18 && 1 <= middle && middle <= 4 && 3 <= down && down <= 18);
        }
    }
    for rng in every_source() {
        for burst in bursts_of(&apply_rng(rng, text, all, Intensity::Random)) {
            let (up, middle, down) = class_counts(&burst, all);
            let mini = up < 8 && middle < 2 && down < 8;
            let normal = 1 <= up && up <= 8 && middle <= 2 && 1 <= down && down <= 8;
            let maxi =
                3 <= up && up <= 18 && 1 <= middle && middle <= 4 && 3 <= down && down <= 18;
            assert!(mini || normal || maxi);
        }
    }
    for kind in every_kind() {
        for intensity in [Intensity::Mini, Intensity::Normal, Intensity::Maxi, Intensity::Random] {
            for burst in bursts_of(&apply_rng(xorshift(), text, kind, intensity)) {
                class_counts(&burst, kind);
            }
        }
    }
}

#[test]
fn engine_steps_through_its_states() {
    let intensity = Intensity::Custom { up: 2, middle: 0, down: 1 };
    let mut engine = apply_rng_iter(chacha(), vec!['a', '\u{301}', 'b'], CharKind::all(), intensity);
    assert_eq!(engine.size_hint(), (9, Some(9)));
    assert_eq!(engine.next(), Some('a'));
    assert_eq!(engine.size_hint(), (8, Some(8)));
    assert!(UP_CHARS.contains(&engine.next().unwrap()));
    assert!(UP_CHARS.contains(&engine.next().unwrap()));
    assert_eq!(engine.size_hint(), (6, Some(6)));
    assert!(DOWN_CHARS.contains(&engine.next().unwrap()));
    assert_eq!(engine.next(), Some('\u{301}'));
    assert_eq!(engine.size_hint(), (4, Some(4)));
    assert_eq!(engine.next(), Some('b'));
    assert!(UP_CHARS.contains(&engine.next().unwrap()));
    assert!(UP_CHARS.contains(&engine.next().unwrap()));
    assert!(DOWN_CHARS.contains(&engine.next().unwrap()));
    assert_eq!(engine.size_hint(), (0, Some(0)));
    assert_eq!(engine.next(), None);
    assert_eq!(engine.next(), None);
    assert_eq!(engine.size_hint(), (0, Some(0)));
    assert_eq!(engine.collect(), Vec::<char>::new());
}

#[test]
fn engine_hints_and_counts() {
    let text: Vec<char> = "text".chars().collect();
    for kind in every_kind() {
        let intensity = Intensity::Custom { up: 3, middle: 2, down: 1 };
        let engine = apply_rng_iter(chacha(), text.clone(), kind, intensity);
        let exact = 4 + 4 * enabled_sum(kind, 3, 2, 1);
        assert_eq!(engine.size_hint(), (exact, Some(exact)));
        assert_eq!(engine.count(), exact);
        let engine = apply_rng_iter(chacha(), text.clone(), kind, intensity);
        assert_eq!(engine.collect().len(), exact);

        for preset in [Intensity::Mini, Intensity::Normal, Intensity::Maxi, Intensity::Random] {
            let mut engine = apply_rng_iter(chacha(), text.clone(), kind, preset);
            assert_eq!(engine.size_hint(), (4, None));
            engine.next();
            assert_eq!(engine.size_hint(), (3, None));
            let counted = apply_rng_iter(chacha(), text.clone(), kind, preset).count();
            let collected = apply_rng_iter(chacha(), text.clone(), kind, preset).collect();
            assert_eq!(counted, collected.len());
            assert!(counted >= 4);
        }
    }

    let huge = Intensity::Custom { up: usize::MAX, middle: usize::MAX, down: 1 };
    let engine = apply_rng_iter(chacha(), text.clone(), CharKind::all(), huge);
    assert_eq!(engine.size_hint(), (usize::MAX, None));
    let engine = apply_rng_iter(chacha(), text.clone(), CharKind::empty(), huge);
    assert_eq!(engine.size_hint(), (4, Some(4)));
    assert_eq!(engine.count(), 4);
    let engine = apply_rng_iter(chacha(), vec!['\u{316}'], CharKind::all(), huge);
    assert_eq!(engine.size_hint(), (1, Some(1)));
}

#[test]
fn engine_collects_what_remains() {
    let intensity = Intensity::Custom { up: 1, middle: 1, down: 1 };
    let mut engine = apply_rng_iter(xorshift(), "ab".chars().collect(), CharKind::all(), intensity);
    assert_eq!(engine.next(), Some('a'));
    assert!(UP_CHARS.contains(&engine.next().unwrap()));
    let rest = engine.collect();
    assert_eq!(rest.len(), 6);
    assert!(MIDDLE_CHARS.contains(&rest[0]));
    assert!(DOWN_CHARS.contains(&rest[1]));
    assert_eq!(rest[2], 'b');
    assert!(UP_CHARS.contains(&rest[3]));
    assert!(MIDDLE_CHARS.contains(&rest[4]));
    assert!(DOWN_CHARS.contains(&rest[5]));
}

#[test]
fn state_is_plain_data() {
    let state = State::GenUp { count_up: 1, count_mid: 2, count_down: 3 };
    assert_eq!(state, state.clone());
    assert_ne!(state, State::Free);
    assert_ne!(State::Finished, State::Free);
}

#[test]
fn stripping_enumerator_from_both_ends() {
    let text: Vec<char> = "a\u{301}bc\u{316}\u{317}d\u{489}".chars().collect();
    let mut plain = unapply_iter(text.clone());
    assert_eq!(plain.size_hint(), (0, Some(8)));
    assert_eq!(plain.next(), Some('a'));
    assert_eq!(plain.next_back(), Some('d'));
    assert_eq!(plain.next(), Some('b'));
    assert_eq!(plain.next_back(), Some('c'));
    assert_eq!(plain.next(), None);
    assert_eq!(plain.next_back(), None);
    assert_eq!(plain.size_hint(), (0, Some(0)));

    assert_eq!(unapply_iter(text.clone()).collect(), vec!['a', 'b', 'c', 'd']);
    assert_eq!(unapply_iter(text.clone()).count(), 4);
    assert_eq!(unapply_iter(text.clone()).last(), Some('d'));
    assert_eq!(unapply_iter(vec!['\u{316}']).last(), None);
    assert_eq!(unapply_iter(Vec::new()).count(), 0);

    let mut plain = unapply_iter(text.clone());
    assert_eq!(plain.nth(2), Some('c'));
    assert_eq!(plain.nth(1), None);
    assert_eq!(plain.next(), None);
    let mut plain = unapply_iter(text.clone());
    assert_eq!(plain.nth(0), Some('a'));
    assert_eq!(plain.nth(0), Some('b'));
    assert_eq!(plain.nth(5), None);
    assert_eq!(plain.next_back(), None);
}

#[test]
fn stripping_keeps_what_is_no_mark() {
    assert_eq!(unapply("text"), "text");
    assert_eq!(unapply("t\u{335}ex\u{328}t"), "text");
    assert_eq!(unapply("\u{316}\u{317}"), "");
    assert_eq!(unapply("a\u{300b}b"), "a\u{300b}b");
    assert_eq!(unapply("e\u{32f}\u{35c}"), "e");
}

#[test]
fn selector_operations() {
    let up = CharKind::up();
    let middle = CharKind::middle();
    let down = CharKind::down();
    assert_eq!(up.bits(), 4);
    assert_eq!(middle.bits(), 2);
    assert_eq!(down.bits(), 1);
    assert_eq!(CharKind::empty().bits(), 0);
    assert_eq!(CharKind::all().bits(), 7);
    assert_eq!(CharKind::from_bits_truncate(0b1011), middle | down);
    assert_eq!(CharKind::from_bits_truncate(0xff), CharKind::all());
    assert!(CharKind::empty().is_empty());
    assert!(!up.is_empty());
    assert!(CharKind::all().is_all());
    assert!(!(up | down).is_all());
    assert!((up | down).intersects(down | middle));
    assert!(!(up | down).intersects(middle));
    assert!(!CharKind::empty().intersects(CharKind::all()));
    assert_eq!(up.union(down), up | down);
    assert_eq!((up | down).intersection(down | middle), down);
    assert_eq!(up.complement(), middle | down);
    assert_eq!(CharKind::all().complement(), CharKind::empty());
    assert_eq!(up.complement().complement(), up);
    assert_eq!((up | down).difference(down | middle), up);
    assert_eq!((up | down) - down, up);
    let mut kind = CharKind::empty();
    kind.insert(up);
    kind.insert(middle);
    assert_eq!(kind, up | middle);
    kind.remove(up | down);
    assert_eq!(kind, middle);
    for a in every_kind() {
        assert_eq!(!!a, a);
        assert_eq!(a | !a, CharKind::all());
        assert_eq!(a & !a, CharKind::empty());
        for b in every_kind() {
            assert_eq!(a.contains(b), (a & b) == b);
            assert_eq!(a | b, b | a);
            assert_eq!(!(a | b), !a & !b);
        }
    }
}

#[test]
fn selector_from_switches() {
    assert_eq!(CharKind::from_switches(false, false, false), CharKind::middle() | CharKind::down());
    assert_eq!(CharKind::from_switches(true, false, false), CharKind::up());
    assert_eq!(CharKind::from_switches(false, true, false), CharKind::middle());
    assert_eq!(CharKind::from_switches(false, false, true), CharKind::down());
    assert_eq!(CharKind::from_switches(true, true, false), CharKind::up() | CharKind::middle());
    assert_eq!(CharKind::from_switches(true, true, true), CharKind::all());
}

#[test]
fn stripping_enumerator_folds() {
    let text: Vec<char> = "a\u{301}bc\u{316}".chars().collect();
    let push = |mut acc: String, c: char| {
        acc.push(c);
        acc
    };
    assert_eq!(unapply_iter(text.clone()).fold(String::new(), push), "abc");
    assert_eq!(unapply_iter(text.clone()).rfold(String::new(), push), "cba");
    assert_eq!(unapply_iter(text.clone()).fold(10usize, |n, _| n + 1), 13);
    assert_eq!(unapply_iter(Vec::new()).fold(7u8, |n, _| n + 1), 7);
    assert_eq!(unapply_iter(vec!['\u{316}']).rfold(7u8, |n, _| n + 1), 7);
    let mut plain = unapply_iter(text);
    assert_eq!(plain.next(), Some('a'));
    assert_eq!(plain.rfold(String::from(">"), push), ">cb");
}
