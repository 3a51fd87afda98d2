use ruback::block::Block;
use ruback::collector::MemProfileRecord;
use ruback::profiler::Profiler;
use ruback::flamegraph::{drawn, ReportError, EXACT_COUNT, LONGEST_PATH};
use ruback::profile::{Function, Line, Profile, ValueType};
use ruback::report::{internal_frame, Report};
use ruback::stack::{Frame, Frames};

fn names(names: &[&str]) -> Vec<String> {
    names.iter().map(|name| name.to_string()).collect()
}

fn allocated(bytes: isize, objects: isize) -> MemProfileRecord {
    MemProfileRecord { alloc_bytes: bytes, free_bytes: 0, alloc_objects: objects, free_objects: 0 }
}

fn text(profile: &Profile, index: usize) -> &str {
    &profile.string_table[index]
}

fn stack_of(profile: &Profile, sample: usize) -> Vec<String> {
    profile.sample[sample]
        .location_id
        .iter()
        .map(|id| {
            let location = &profile.location[id - 1];
            let function = &profile.function[location.line[0].function_id - 1];
            profile.string_table[function.name].clone()
        })
        .collect()
}

fn check_well_formed(profile: &Profile) {
    let strings = profile.string_table.len();
    assert!(strings > 0);
    assert_eq!(profile.string_table[0], "");
    for t in &profile.sample_type {
        assert!(t.ty < strings && t.unit < strings);
    }
    let period_type = profile.period_type.unwrap();
    assert!(period_type.ty < strings && period_type.unit < strings);
    assert!(profile.drop_frames < strings);
    for (k, f) in profile.function.iter().enumerate() {
        assert_eq!(f.id, k + 1);
        assert!(f.name < strings && f.system_name < strings && f.filename < strings);
    }
    for (k, l) in profile.location.iter().enumerate() {
        assert_eq!(l.id, k + 1);
        assert_eq!(l.line.len(), 1);
        assert!(1 <= l.line[0].function_id && l.line[0].function_id <= profile.function.len());
    }
    for s in &profile.sample {
        assert_eq!(s.value.len(), profile.sample_type.len());
        for id in &s.location_id {
            assert!(1 <= *id && *id <= profile.location.len());
        }
    }
}

#[test]
fn frames_of_the_profiler_are_internal() {
    assert!(internal_frame("ruback::hook::malloc"));
    assert!(internal_frame("ruback::profiler::Profiler::track_allocated"));
    assert!(internal_frame("ruback::"));
    assert!(!internal_frame("ruback"));
    assert!(!internal_frame("ruback:"));
    assert!(!internal_frame("my::ruback::thing"));
    assert!(!internal_frame("rubacks::x"));
}

#[test]
fn entry_points_and_runtime_shims_are_internal() {
    for name in [
        "malloc",
        "calloc",
        "realloc",
        "posix_memalign",
        "aligned_alloc",
        "__rust_alloc",
        "__rust_alloc_zeroed",
        "__rust_realloc",
        "__rdl_alloc",
        "__rdl_alloc_zeroed",
        "__rdl_realloc",
    ] {
        assert!(internal_frame(name), "{}", name);
    }
}

#[test]
fn frames_of_the_program_are_not_internal() {
    for name in [
        "",
        "main",
        "malloc_usable_size",
        "mallo",
        "mallocs",
        "my_malloc",
        "free",
        "__rust_dealloc",
        "alloc::vec::Vec<T>::push",
        "app::Foo::new",
        "ünïcödé::name",
    ] {
        assert!(!internal_frame(name), "{}", name);
    }
}

#[test]
fn report_strips_internal_frames() {
    let samples = vec![(
        names(&["ruback::block::Block::backtrace", "ruback::hook::malloc", "malloc", "__rust_alloc", "app::Foo::new", "main"]),
        allocated(100, 1),
    )];
    let report = Report::new(samples, 1);
    assert_eq!(report.len(), 1);
    assert_eq!(report.stack(0), &names(&["app::Foo::new", "main"]));
    assert_eq!(report.bytes(0), 100);
    assert_eq!(report.period(), 1);
}

#[test]
fn report_adds_up_stacks_that_look_the_same() {
    let samples = vec![
        (names(&["malloc", "a", "main"]), allocated(100, 1)),
        (names(&["b", "main"]), allocated(7, 1)),
        (names(&["calloc", "a", "main"]), allocated(20, 2)),
        (names(&["a"]), allocated(1, 1)),
    ];
    let report = Report::new(samples, 512);
    assert_eq!(report.period(), 512);
    assert_eq!(report.len(), 3);
    assert_eq!(report.stack(0), &names(&["a", "main"]));
    assert_eq!(report.bytes(0), 120);
    assert_eq!(report.stack(1), &names(&["b", "main"]));
    assert_eq!(report.bytes(1), 7);
    assert_eq!(report.stack(2), &names(&["a"]));
    assert_eq!(report.bytes(2), 1);
}

#[test]
fn report_counts_allocated_bytes() {
    let freed = MemProfileRecord { alloc_bytes: 100, free_bytes: 60, alloc_objects: 2, free_objects: 1 };
    let report = Report::new(vec![(names(&["main"]), freed)], 1);
    assert_eq!(report.bytes(0), 100);
}

#[test]
fn report_sums_stay_within_isize() {
    let samples = vec![
        (names(&["main"]), allocated(isize::MAX, 1)),
        (names(&["main"]), allocated(5, 1)),
    ];
    let report = Report::new(samples, 1);
    assert_eq!(report.len(), 1);
    assert_eq!(report.bytes(0), isize::MAX);
}

#[test]
fn report_of_nothing_is_empty() {
    let report = Report::new(Vec::new(), 4096);
    assert_eq!(report.len(), 0);
    assert_eq!(report.period(), 4096);
}

#[test]
fn stack_of_internal_frames_only_is_the_empty_stack() {
    let samples = vec![
        (names(&["malloc"]), allocated(3, 1)),
        (names(&[]), allocated(4, 1)),
    ];
    let report = Report::new(samples, 1);
    assert_eq!(report.len(), 1);
    assert!(report.stack(0).is_empty());
    assert_eq!(report.bytes(0), 7);
}

#[test]
fn snapshot_resolves_every_frame_in_order() {
    let mut frames = Frames::new();
    frames.push(Frame { ip: 0x11, symbol_address: 0x10 });
    frames.push(Frame { ip: 0x21, symbol_address: 0x20 });
    frames.push(Frame { ip: 0x31, symbol_address: 0x30 });
    let resolve = |frame: Frame| match frame.symbol_address {
        // An entry point of the allocator.
        0x10 => names(&["malloc"]),
        // A frame with a function inlined into it.
        0x20 => names(&["inner", "outer"]),
        // A frame that nobody knows.
        _ => Vec::new(),
    };
    let report = Report::snapshot(vec![(frames, allocated(64, 1))], 8, resolve);
    assert_eq!(report.period(), 8);
    assert_eq!(report.len(), 1);
    assert_eq!(report.stack(0), &names(&["inner", "outer"]));
    assert_eq!(report.bytes(0), 64);
}

#[test]
fn session_ends_in_a_report() {
    let mut profiler = Profiler::new(true);
    profiler.start(1);
    let site = || {
        let mut frames = Frames::new();
        frames.push(Frame { ip: 0x11, symbol_address: 0x10 });
        frames
    };
    let mut block = Block::new(0x1000);
    block.set_size(100);
    profiler.track_allocated(100, &mut block, site);
    profiler.track_allocated(-100, &mut block, site);
    let report = profiler.report(|frame: Frame| vec![format!("fn_{:x}", frame.symbol_address)]);
    assert!(!profiler.is_enabled());
    assert_eq!(profiler.allocated_bytes(), 0);
    assert_eq!(report.period(), 1);
    assert_eq!(report.len(), 1);
    assert_eq!(report.stack(0), &names(&["fn_10"]));
    assert_eq!(report.bytes(0), 100);
}

#[test]
fn pprof_names_space_in_bytes() {
    let report = Report::new(vec![(names(&["a", "main"]), allocated(100, 1))], 4096);
    let profile = report.pprof();
    check_well_formed(&profile);
    assert_eq!(profile.sample_type.len(), 1);
    assert_eq!(text(&profile, profile.sample_type[0].ty), "alloc_space");
    assert_eq!(text(&profile, profile.sample_type[0].unit), "bytes");
    let period_type = profile.period_type.unwrap();
    assert_eq!(text(&profile, period_type.ty), "space");
    assert_eq!(text(&profile, period_type.unit), "bytes");
    assert_eq!(profile.period, 4096);
    assert_eq!(text(&profile, profile.drop_frames), ".*::Profiler::track_allocated");
}

#[test]
fn pprof_has_one_sample_for_each_line() {
    let samples = vec![
        (names(&["a", "main"]), allocated(100, 1)),
        (names(&["b", "a", "main"]), allocated(7, 1)),
        (names(&[]), allocated(1, 1)),
    ];
    let report = Report::new(samples, 1);
    let profile = report.pprof();
    check_well_formed(&profile);
    assert_eq!(profile.sample.len(), 3);
    assert_eq!(stack_of(&profile, 0), names(&["a", "main"]));
    assert_eq!(profile.sample[0].value, vec![100]);
    assert_eq!(stack_of(&profile, 1), names(&["b", "a", "main"]));
    assert_eq!(profile.sample[1].value, vec![7]);
    assert!(stack_of(&profile, 2).is_empty());
    assert_eq!(profile.sample[2].value, vec![1]);
}

#[test]
fn pprof_names_each_function_once() {
    let samples = vec![
        (names(&["a", "main"]), allocated(100, 1)),
        (names(&["b", "a", "main"]), allocated(7, 1)),
    ];
    let profile = Report::new(samples, 1).pprof();
    assert_eq!(
        profile.string_table,
        vec!["", "alloc_space", "bytes", "space", ".*::Profiler::track_allocated", "a", "main", "b"]
    );
    assert_eq!(
        profile.function,
        vec![
            Function { id: 1, name: 5, system_name: 5, filename: 0 },
            Function { id: 2, name: 6, system_name: 6, filename: 0 },
            Function { id: 3, name: 7, system_name: 7, filename: 0 },
        ]
    );
    assert_eq!(profile.location.len(), 3);
    assert_eq!(profile.location[2].id, 3);
    assert_eq!(profile.location[2].line, vec![Line { function_id: 3, line: 0 }]);
    assert_eq!(profile.sample[0].location_id, vec![1, 2]);
    assert_eq!(profile.sample[1].location_id, vec![3, 1, 2]);
    assert_eq!(profile.sample_type, vec![ValueType { ty: 1, unit: 2 }]);
    assert_eq!(profile.period_type, Some(ValueType { ty: 3, unit: 2 }));
    assert_eq!(profile.drop_frames, 4);
}

#[test]
fn pprof_of_an_empty_report() {
    let profile = Report::new(Vec::new(), 7).pprof();
    check_well_formed(&profile);
    assert!(profile.sample.is_empty());
    assert!(profile.function.is_empty());
    assert!(profile.location.is_empty());
    assert_eq!(profile.string_table.len(), 5);
    assert_eq!(profile.period, 7);
}

#[test]
fn pprof_tells_names_like_the_fixed_strings_apart() {
    // A function may be called like one of the strings every profile has.
    let profile = Report::new(vec![(names(&["bytes", ""]), allocated(9, 1))], 1).pprof();
    check_well_formed(&profile);
    assert_eq!(stack_of(&profile, 0), names(&["bytes", ""]));
    assert_eq!(text(&profile, profile.sample_type[0].unit), "bytes");
    assert_eq!(profile.function.len(), 2);
}

#[test]
fn folded_lines_run_from_the_outermost_frame() {
    let samples = vec![
        (names(&["inner", "middle", "main"]), allocated(100, 1)),
        (names(&["main"]), allocated(7, 1)),
    ];
    let report = Report::new(samples, 1);
    assert_eq!(report.folded(), vec!["main;middle;inner 100", "main 7"]);
}

#[test]
fn folded_lines_count_in_decimal() {
    for bytes in [1isize, 9, 10, 11, 99, 100, 101, 1234567890, isize::MAX] {
        let report = Report::new(vec![(names(&["f"]), allocated(bytes, 1))], 1);
        assert_eq!(report.folded(), vec![format!("f {}", bytes)]);
    }
}

#[test]
fn folded_lines_leave_out_stacks_without_bytes() {
    let samples = vec![
        (names(&["a"]), allocated(0, 0)),
        (names(&["b"]), allocated(-5, 0)),
        (names(&["c"]), allocated(3, 1)),
    ];
    let report = Report::new(samples, 1);
    assert_eq!(report.len(), 3);
    assert_eq!(report.folded(), vec!["c 3"]);
}

#[test]
fn folded_line_of_a_stack_without_frames() {
    let report = Report::new(vec![(names(&["malloc"]), allocated(8, 1))], 1);
    assert_eq!(report.folded(), vec!["[unknown] 8"]);
}

#[test]
fn folded_names_with_blanks_stay_whole() {
    let samples = vec![(names(&["<T as core::fmt::Debug>::fmt", "main"]), allocated(8, 1))];
    let report = Report::new(samples, 1);
    assert_eq!(report.folded(), vec!["main;<T as core::fmt::Debug>::fmt 8"]);
}

#[test]
fn flamegraph_of_an_empty_report_is_empty() {
    assert_eq!(Report::new(Vec::new(), 1).flamegraph().unwrap(), Vec::<u8>::new());
    let no_bytes = Report::new(vec![(names(&["a"]), allocated(0, 0))], 1);
    assert_eq!(no_bytes.flamegraph().unwrap(), Vec::<u8>::new());
}

#[test]
fn flamegraph_draws_the_stacks_in_bytes() {
    let samples = vec![
        (names(&["app::Foo::new", "app::main"]), allocated(4000, 4)),
        (names(&["app::setup", "app::main"]), allocated(64, 1)),
    ];
    let svg = Report::new(samples, 1).flamegraph().unwrap();
    let svg = String::from_utf8(svg).unwrap();
    assert!(svg.contains("<svg"));
    assert!(svg.contains("</svg>"));
    assert!(svg.contains("app::Foo::new"));
    assert!(svg.contains("app::main"));
    assert!(svg.contains("app::setup"));
    // The frames are counted in bytes: all 4,064 of them are under `main`.
    assert!(svg.contains("4,064 bytes"));
    assert!(svg.contains("4,000 bytes"));
    assert!(svg.contains("64 bytes"));
}

#[test]
fn renderer_complaint_becomes_a_report_error() {
    assert_eq!(drawn(Ok(vec![1, 2, 3])).unwrap(), vec![1, 2, 3]);
    match drawn(Err("no stack counts found".to_string())) {
        Err(ReportError::Render(text)) => assert_eq!(text, "no stack counts found"),
        _ => panic!("a complaint is not a drawing"),
    }
}

#[test]
fn total_adds_up_the_lines_that_have_bytes() {
    let samples = vec![
        (names(&["a"]), allocated(4000, 4)),
        (names(&["b"]), allocated(-7, 0)),
        (names(&["c"]), allocated(0, 0)),
        (names(&["d"]), allocated(64, 1)),
    ];
    assert_eq!(Report::new(samples, 1).total(), Some(4064));
    assert_eq!(Report::new(Vec::new(), 1).total(), Some(0));
    let most = vec![
        (names(&["a"]), allocated(isize::MAX, 1)),
        (names(&["b"]), allocated(isize::MAX, 1)),
        (names(&["c"]), allocated(1, 1)),
    ];
    assert_eq!(Report::new(most, 1).total(), Some(usize::MAX));
}

#[test]
fn report_beyond_what_the_renderer_counts_is_not_drawn() {
    let samples = vec![
        (names(&["a"]), allocated(isize::MAX, 1)),
        (names(&["b"]), allocated(isize::MAX, 1)),
        (names(&["c"]), allocated(2, 1)),
    ];
    let report = Report::new(samples, 1);
    assert_eq!(report.total(), None);
    assert!(matches!(report.refusal(), Some(ReportError::TooLarge)));
    assert!(matches!(report.flamegraph(), Err(ReportError::TooLarge)));
    // The lines themselves can still be had.
    assert_eq!(report.folded().len(), 3);
}

fn most_bytes() -> isize {
    (usize::MAX / 100).min(EXACT_COUNT as usize) as isize
}

#[test]
fn limits_of_the_renderer() {
    assert_eq!(EXACT_COUNT, 1 << 53);
    assert_eq!(LONGEST_PATH, 1_000_000);
    assert!(100 * (most_bytes() as u128) <= usize::MAX as u128);
}

#[test]
fn report_of_the_most_bytes_is_drawn() {
    let most = most_bytes();
    let samples = vec![
        (names(&["app::big", "app::main"]), allocated(most - 5, 1)),
        (names(&["app::small", "app::main"]), allocated(5, 1)),
    ];
    let report = Report::new(samples, 1);
    assert_eq!(report.total(), Some(most as usize));
    assert!(report.refusal().is_none());
    let svg = String::from_utf8(report.flamegraph().unwrap()).unwrap();
    assert!(svg.contains("<svg"));
    assert!(svg.contains("app::big"));
    assert!(svg.contains("app::main"));
}

#[test]
fn report_of_one_byte_more_is_not_drawn() {
    let most = most_bytes();
    let samples = vec![
        (names(&["app::big", "app::main"]), allocated(most, 1)),
        (names(&["app::small", "app::main"]), allocated(1, 1)),
    ];
    let report = Report::new(samples, 1);
    assert_eq!(report.total(), Some(most as usize + 1));
    assert!(matches!(report.refusal(), Some(ReportError::TooLarge)));
    assert!(matches!(report.flamegraph(), Err(ReportError::TooLarge)));
}

#[test]
fn report_of_many_more_bytes_is_not_drawn() {
    let report = Report::new(vec![(names(&["main"]), allocated(200_000_000_000_000_000, 1))], 1);
    assert!(matches!(report.flamegraph(), Err(ReportError::TooLarge)));
}

#[test]
fn path_that_ends_in_a_number_is_not_drawn() {
    for name in [
        "x 9223372036854775808",
        "x 1",
        "thread 2",
        "x 1.5",
        "x 12.",
        "x .5",
        "x 7 ",
        "x 7\t",
        "x 7\u{a0}",
        "x 7\u{2003}\u{3000}",
        "x\u{e9} 7",
        "a b 3",
        " 4",
        "x  12",
    ] {
        let report = Report::new(vec![(names(&[name, "main"]), allocated(1, 1))], 1);
        assert!(matches!(report.refusal(), Some(ReportError::PathEndsInCount)), "{:?}", name);
        assert!(matches!(report.flamegraph(), Err(ReportError::PathEndsInCount)), "{:?}", name);
    }
}

#[test]
fn path_with_blanks_and_numbers_elsewhere_is_drawn() {
    for name in [
        "<T as core::fmt::Debug>::fmt",
        "x 12 y",
        "x 12y",
        "x12",
        "12",
        "x y",
        "x ",
        "x .",
        "x 1,5",
        "closure #3",
        "x 1e5",
        "x 7\u{e9}y",
        "caf\u{e9} noir",
    ] {
        let report = Report::new(vec![(names(&[name, "main"]), allocated(64, 1))], 1);
        assert!(report.refusal().is_none(), "{:?}", name);
        let svg = report.flamegraph().unwrap();
        assert!(!svg.is_empty(), "{:?}", name);
    }
}

#[test]
fn number_in_an_outer_frame_does_no_harm() {
    // Only the end of the path can be taken for a count, and the path ends
    // in the innermost frame.
    let report = Report::new(vec![(names(&["inner", "outer 12"]), allocated(64, 1))], 1);
    assert_eq!(report.folded(), vec!["outer 12;inner 64"]);
    assert!(report.refusal().is_none());
    let svg = String::from_utf8(report.flamegraph().unwrap()).unwrap();
    assert!(svg.contains("outer 12"));
}

#[test]
fn stack_without_bytes_is_never_at_fault() {
    let samples = vec![
        (names(&["x 1"]), allocated(0, 0)),
        (names(&["main"]), allocated(8, 1)),
    ];
    let report = Report::new(samples, 1);
    assert!(report.refusal().is_none());
    assert!(!report.flamegraph().unwrap().is_empty());
}

#[test]
fn path_beyond_the_longest_is_not_drawn() {
    let longest = "a".repeat(LONGEST_PATH);
    let report = Report::new(vec![(vec![longest.clone()], allocated(8, 1))], 1);
    assert!(report.refusal().is_none());
    let too_long = Report::new(vec![(vec![longest + "a"], allocated(8, 1))], 1);
    assert!(matches!(too_long.refusal(), Some(ReportError::PathTooLong)));
    assert!(matches!(too_long.flamegraph(), Err(ReportError::PathTooLong)));
    // The path is measured in bytes: these are 500,001 characters.
    let wide = Report::new(vec![(vec!["é".repeat(LONGEST_PATH / 2 + 1)], allocated(8, 1))], 1);
    assert!(matches!(wide.refusal(), Some(ReportError::PathTooLong)));
    // The separators count as well.
    let frames: Vec<String> = vec!["ab".to_string(); LONGEST_PATH / 3 + 1];
    let deep = Report::new(vec![(frames, allocated(8, 1))], 1);
    assert!(matches!(deep.refusal(), Some(ReportError::PathTooLong)));
}

#[test]
fn first_line_at_fault_decides() {
    let samples = vec![
        (names(&["fine"]), allocated(8, 1)),
        (names(&["x 1"]), allocated(8, 1)),
        (vec!["a".repeat(LONGEST_PATH + 1)], allocated(8, 1)),
    ];
    let report = Report::new(samples, 1);
    assert!(matches!(report.refusal(), Some(ReportError::PathEndsInCount)));
}

#[test]
fn deep_stack_is_drawn() {
    let frames: Vec<String> = (0..2000).map(|i| format!("f{}", i)).collect();
    let report = Report::new(vec![(frames, allocated(8, 1))], 1);
    assert!(report.refusal().is_none());
    let svg = String::from_utf8(report.flamegraph().unwrap()).unwrap();
    assert!(svg.contains("f1999"));
}
