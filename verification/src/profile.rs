//! A report in the shape of a pprof profile.
//!
//! A profile names every function once, in a table of strings, and gives
//! each stack as a list of places in its tables. What is built here is the
//! profile as plain values; putting it into bytes is left to an encoder.

use crate::report::{names_of, same_text, Report, Stack};
use vstd::prelude::*;

verus! {

/// A kind of value in a profile, and the unit it is counted in. Both are
/// places in the profile's table of strings.
#[derive(Clone, Copy, Debug, PartialEq, Eq, Structural)]
pub struct ValueType {
    pub ty: usize,
    pub unit: usize,
}

/// A function that frames of the program were in. Its names are places in
/// the profile's table of strings.
#[derive(Clone, Copy, Debug, PartialEq, Eq, Structural)]
pub struct Function {
    pub id: usize,
    pub name: usize,
    pub system_name: usize,
    pub filename: usize,
}

/// A line of a function, by the function's `id`.
#[derive(Clone, Copy, Debug, PartialEq, Eq, Structural)]
pub struct Line {
    pub function_id: usize,
    pub line: usize,
}

/// A place in the program that a frame was at.
#[derive(Debug)]
pub struct Location {
    pub id: usize,
    pub line: Vec<Line>,
}

/// One stack, by the `id`s of its frames' locations, innermost first, and
/// the values counted under it, one for each kind of value of the profile.
#[derive(Debug)]
pub struct Sample {
    pub location_id: Vec<usize>,
    pub value: Vec<isize>,
}

/// A report in the shape of a pprof profile: samples over tables of
/// locations, functions and strings.
#[derive(Debug)]
pub struct Profile {
    pub sample_type: Vec<ValueType>,
    pub sample: Vec<Sample>,
    pub location: Vec<Location>,
    pub function: Vec<Function>,
    pub string_table: Vec<String>,
    pub drop_frames: usize,
    pub period_type: Option<ValueType>,
    pub period: usize,
}

impl Profile {
    /// The string at `index` of the table of strings.
    pub open spec fn text(&self, index: usize) -> Seq<char> {
        self.string_table@[index as int]@
    }

    /// Whether the profile hangs together: the table of strings begins with
    /// the empty string, every place in a table is a place of that table,
    /// functions and locations are numbered from one in the order of their
    /// tables, and every sample has one value for each kind of value.
    pub open spec fn well_formed(&self) -> bool {
        let strings = self.string_table@.len();
        &&& strings > 0
        &&& self.string_table@[0]@ == Seq::<char>::empty()
        &&& forall|i: int|
            0 <= i < self.sample_type@.len() ==> (#[trigger] self.sample_type@[i]).ty < strings
                && self.sample_type@[i].unit < strings
        &&& self.period_type matches Some(t) ==> t.ty < strings && t.unit < strings
        &&& self.drop_frames < strings
        &&& forall|k: int|
            0 <= k < self.function@.len() ==> {
                let f = #[trigger] self.function@[k];
                f.id == k + 1 && f.name < strings && f.system_name < strings && f.filename
                    < strings
            }
        &&& forall|k: int|
            0 <= k < self.location@.len() ==> {
                let l = #[trigger] self.location@[k];
                l.id == k + 1 && l.line@.len() == 1 && 1 <= l.line@[0].function_id
                    <= self.function@.len()
            }
        &&& forall|i: int|
            0 <= i < self.sample@.len() ==> {
                let s = #[trigger] self.sample@[i];
                &&& s.value@.len() == self.sample_type@.len()
                &&& forall|j: int|
                    0 <= j < s.location_id@.len() ==> 1 <= #[trigger] s.location_id@[j]
                        <= self.location@.len()
            }
    }

    /// The name of the function that the location `location_id` is in.
    pub open spec fn frame_name(&self, location_id: usize) -> Seq<char> {
        let location = self.location@[location_id - 1];
        let function = self.function@[location.line@[0].function_id - 1];
        self.text(function.name)
    }

    /// The stack of the `i`-th sample, by the names of its frames.
    pub open spec fn stack_of(&self, i: int) -> Stack {
        Seq::new(
            self.sample@[i].location_id@.len(),
            |j: int| self.frame_name(self.sample@[i].location_id@[j]),
        )
    }
}

/// The strings that every profile begins with: the empty string, the kind
/// and the unit of the values, the kind of the period, and the pattern of
/// the frames that viewers are to drop.
pub open spec fn fixed_strings(strings: Seq<String>) -> bool {
    &&& strings.len() >= 5
    &&& strings[0]@ == Seq::<char>::empty()
    &&& strings[1]@ == "alloc_space"@
    &&& strings[2]@ == "bytes"@
    &&& strings[3]@ == "space"@
    &&& strings[4]@ == ".*::Profiler::track_allocated"@
}

/// The shape in which the tables are built: the `k`-th function is named by
/// the `k`-th string behind the fixed ones, and the `k`-th location is in
/// the `k`-th function.
spec fn tables_built(strings: Seq<String>, functions: Seq<Function>, locations: Seq<Location>) -> bool {
    &&& fixed_strings(strings)
    &&& strings.len() == 5 + functions.len()
    &&& functions.len() == locations.len()
    &&& forall|k: int|
        0 <= k < functions.len() ==> #[trigger] functions[k] == (Function {
            id: (k + 1) as usize,
            name: (5 + k) as usize,
            system_name: (5 + k) as usize,
            filename: 0,
        })
    &&& forall|k: int|
        0 <= k < locations.len() ==> (#[trigger] locations[k]).id == k + 1 && locations[k].line@
            == seq![Line { function_id: (k + 1) as usize, line: 0 }]
}

/// Whether `ids` are the locations of the frames of `stack`, in tables of
/// the shape above.
spec fn names_stack(strings: Seq<String>, ids: Seq<usize>, stack: Stack) -> bool {
    &&& ids.len() == stack.len()
    &&& forall|j: int|
        0 <= j < ids.len() ==> 1 <= #[trigger] ids[j] && ids[j] + 4 < strings.len() && strings[ids[j]
            + 4]@ == stack[j]
}

impl Report {
    /// The report as a pprof profile. Its one kind of value is the space
    /// allocated, in bytes; its period is the session's, in bytes of space.
    /// Each line of the report is a sample, under the same stack and with
    /// the same bytes. Viewers are told to drop the profiler's own frames.
    pub fn pprof(&self) -> (profile: Profile)
        ensures
            profile.well_formed(),
            profile.sample_type@.len() == 1,
            profile.text(profile.sample_type@[0].ty) == "alloc_space"@,
            profile.text(profile.sample_type@[0].unit) == "bytes"@,
            profile.period_type matches Some(t) && profile.text(t.ty) == "space"@ && profile.text(
                t.unit,
            ) == "bytes"@,
            profile.text(profile.drop_frames) == ".*::Profiler::track_allocated"@,
            profile.period == self.sampling_period(),
            profile.sample@.len() == self.weights().len(),
            forall|i: int|
                0 <= i < self.weights().len() ==> #[trigger] profile.stack_of(i)
                    == self.weights()[i].0 && profile.sample@[i].value@ == seq![
                    self.weights()[i].1,
                ],
    {
        let mut strings: Vec<String> = Vec::new();
        strings.push(String::new());
        strings.push("alloc_space".to_owned());
        strings.push("bytes".to_owned());
        strings.push("space".to_owned());
        strings.push(".*::Profiler::track_allocated".to_owned());
        let mut functions: Vec<Function> = Vec::new();
        let mut locations: Vec<Location> = Vec::new();
        let mut samples: Vec<Sample> = Vec::new();
        let ghost lines = self.weights();
        let count = self.len();
        let mut i: usize = 0;
        while i < count
            invariant
                i <= count,
                count == lines.len(),
                lines == self.weights(),
                tables_built(strings@, functions@, locations@),
                samples@.len() == i,
                forall|s: int|
                    0 <= s < i ==> names_stack(
                        strings@,
                        (#[trigger] samples@[s]).location_id@,
                        lines[s].0,
                    ) && samples@[s].value@ == seq![lines[s].1],
            decreases count - i,
        {
            let names = self.stack(i);
            let ghost stack = names_of(names@);
            let mut ids: Vec<usize> = Vec::new();
            let mut j: usize = 0;
            while j < names.len()
                invariant
                    j <= names.len(),
                    i < count,
                    count == lines.len(),
                    stack == names_of(names@),
                    stack == lines[i as int].0,
                    lines == self.weights(),
                    tables_built(strings@, functions@, locations@),
                    samples@.len() == i,
                    forall|s: int|
                        0 <= s < i ==> names_stack(
                            strings@,
                            (#[trigger] samples@[s]).location_id@,
                            lines[s].0,
                        ) && samples@[s].value@ == seq![lines[s].1],
                    names_stack(strings@, ids@, stack.take(j as int)),
                decreases names.len() - j,
            {
                let name = &names[j];
                let places = strings.len();
                let mut k: usize = 0;
                let mut found = false;
                while k < functions.len() && !found
                    invariant
                        k <= functions.len(),
                        places == strings@.len(),
                        strings@.len() == 5 + functions@.len(),
                        found ==> k < functions.len() && strings@[5 + k]@ == name@,
                    decreases functions.len() - k + (if found { 0int } else { 1int }),
                {
                    if same_text(strings[5 + k].as_str(), name.as_str()) {
                        found = true;
                    } else {
                        k = k + 1;
                    }
                }
                let ghost old_strings = strings@;
                if !found {
                    strings.push(name.clone());
                    functions.push(
                        Function { id: k + 1, name: 5 + k, system_name: 5 + k, filename: 0 },
                    );
                    let mut line: Vec<Line> = Vec::new();
                    line.push(Line { function_id: k + 1, line: 0 });
                    locations.push(Location { id: k + 1, line });
                    assert(locations@[k as int].line@ =~= seq![
                        Line { function_id: (k + 1) as usize, line: 0 },
                    ]);
                }
                assert(forall|x: int| 0 <= x < old_strings.len() ==> strings@[x] == old_strings[x]);
                let ghost old_ids = ids@;
                ids.push(k + 1);
                assert(names_stack(strings@, ids@, stack.take(j + 1))) by {
                    assert forall|x: int| 0 <= x < ids@.len() implies 1 <= #[trigger] ids@[x]
                        && ids@[x] + 4 < strings@.len() && strings@[ids@[x] + 4]@ == stack.take(
                        j + 1,
                    )[x] by {
                        if x < j {
                            assert(ids@[x] == old_ids[x]);
                            assert(stack.take(j as int)[x] == stack[x]);
                        }
                    }
                }
                assert forall|s: int| 0 <= s < i implies names_stack(
                    strings@,
                    (#[trigger] samples@[s]).location_id@,
                    lines[s].0,
                ) by {
                    assert(names_stack(old_strings, samples@[s].location_id@, lines[s].0));
                }
                j = j + 1;
            }
            assert(stack.take(names.len() as int) =~= stack);
            let mut value: Vec<isize> = Vec::new();
            value.push(self.bytes(i));
            assert(value@ =~= seq![lines[i as int].1]);
            samples.push(Sample { location_id: ids, value });
            i = i + 1;
        }
        let mut sample_type: Vec<ValueType> = Vec::new();
        sample_type.push(ValueType { ty: 1, unit: 2 });
        // The table is a vector: its places, and with them the names of the
        // functions, are within what a `usize` holds.
        let places = strings.len();
        assert(places == 5 + functions@.len());
        let profile = Profile {
            sample_type,
            sample: samples,
            location: locations,
            function: functions,
            string_table: strings,
            drop_frames: 4,
            period_type: Some(ValueType { ty: 3, unit: 2 }),
            period: self.period(),
        };
        proof {
            assert forall|s: int| 0 <= s < lines.len() implies #[trigger] profile.stack_of(s)
                == lines[s].0 by {
                assert(names_stack(profile.string_table@, profile.sample@[s].location_id@, lines[s].0));
                assert(profile.stack_of(s) =~= lines[s].0) by {
                    assert forall|x: int|
                        0 <= x < profile.sample@[s].location_id@.len() implies profile.frame_name(
                        profile.sample@[s].location_id@[x],
                    ) == lines[s].0[x] by {
                        let id = profile.sample@[s].location_id@[x];
                        assert(profile.location@[id - 1].line@[0].function_id == id);
                        assert(profile.function@[id - 1].name == id + 4);
                    }
                }
            }
            assert(profile.well_formed()) by {
                assert forall|s: int| 0 <= s < profile.sample@.len() implies {
                    let sm = #[trigger] profile.sample@[s];
                    &&& sm.value@.len() == profile.sample_type@.len()
                    &&& forall|x: int|
                        0 <= x < sm.location_id@.len() ==> 1 <= #[trigger] sm.location_id@[x]
                            <= profile.location@.len()
                } by {
                    assert(names_stack(
                        profile.string_table@,
                        profile.sample@[s].location_id@,
                        lines[s].0,
                    ));
                }
            }
        }
        profile
    }
}

} // verus!
