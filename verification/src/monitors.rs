//! The event sources of the driver and the classes of the events they give.
use crate::text;
use vstd::prelude::*;

verus! {

broadcast use vstd::string::group_string_axioms;

/// A source of events that can be selected.
#[derive(Clone, Copy, Debug, PartialEq, Eq, Structural)]
pub enum MonitorSource {
    Process,
    File,
    Registry,
    Network,
}

/// What kind of activity an event reports.
#[derive(Clone, Copy, Debug, PartialEq, Eq, Structural)]
pub enum EventClass {
    Process,
    File,
    Registry,
    Network,
    Profiling,
    Other,
}

/// A set of event sources.
#[derive(Clone, Copy, Debug, PartialEq, Eq, Structural)]
pub struct MonitorFlags {
    process: bool,
    file: bool,
    registry: bool,
    network: bool,
}

impl View for MonitorFlags {
    type V = Set<MonitorSource>;

    closed spec fn view(&self) -> Set<MonitorSource> {
        Set::new(
            |s: MonitorSource|
                match s {
                    MonitorSource::Process => self.process,
                    MonitorSource::File => self.file,
                    MonitorSource::Registry => self.registry,
                    MonitorSource::Network => self.network,
                },
        )
    }
}

impl MonitorFlags {
    /// No source.
    pub fn empty() -> (r: MonitorFlags)
        ensures
            r@ == Set::<MonitorSource>::empty(),
    {
        let r = MonitorFlags { process: false, file: false, registry: false, network: false };
        assert(r@ =~= Set::<MonitorSource>::empty());
        r
    }

    /// Every source.
    pub fn all() -> (r: MonitorFlags)
        ensures
            r@ == Set::<MonitorSource>::full(),
    {
        let r = MonitorFlags { process: true, file: true, registry: true, network: true };
        assert(r@ =~= Set::<MonitorSource>::full());
        r
    }

    /// Whether `source` is in the set.
    pub fn contains(&self, source: MonitorSource) -> (r: bool)
        ensures
            r == self@.contains(source),
    {
        match source {
            MonitorSource::Process => self.process,
            MonitorSource::File => self.file,
            MonitorSource::Registry => self.registry,
            MonitorSource::Network => self.network,
        }
    }

    /// Whether no source is in the set.
    pub fn is_empty(&self) -> (r: bool)
        ensures
            r == (self@ == Set::<MonitorSource>::empty()),
    {
        let r = !(self.process || self.file || self.registry || self.network);
        proof {
            if r {
                assert(self@ =~= Set::<MonitorSource>::empty());
            } else {
                assert(self@.contains(MonitorSource::Process) || self@.contains(
                    MonitorSource::File,
                ) || self@.contains(MonitorSource::Registry) || self@.contains(
                    MonitorSource::Network,
                ));
            }
        }
        r
    }

    /// Adds `source` to the set.
    pub fn insert(&mut self, source: MonitorSource)
        ensures
            final(self)@ == old(self)@.insert(source),
    {
        match source {
            MonitorSource::Process => {
                self.process = true;
            },
            MonitorSource::File => {
                self.file = true;
            },
            MonitorSource::Registry => {
                self.registry = true;
            },
            MonitorSource::Network => {
                self.network = true;
            },
        }
        assert(self@ =~= old(self)@.insert(source));
    }
}

/// The source that a name stands for, in either case of its letters.
pub open spec fn source_named(name: Seq<char>) -> Option<MonitorSource> {
    if text::same_ignoring_case(name, "process"@) || text::same_ignoring_case(name, "proc"@) {
        Some(MonitorSource::Process)
    } else if text::same_ignoring_case(name, "file"@) || text::same_ignoring_case(
        name,
        "filesystem"@,
    ) {
        Some(MonitorSource::File)
    } else if text::same_ignoring_case(name, "registry"@) || text::same_ignoring_case(
        name,
        "reg"@,
    ) {
        Some(MonitorSource::Registry)
    } else if text::same_ignoring_case(name, "network"@) || text::same_ignoring_case(
        name,
        "net"@,
    ) {
        Some(MonitorSource::Network)
    } else {
        None
    }
}

fn parse_source(name: &str) -> (r: Option<MonitorSource>)
    ensures
        r == source_named(name@),
{
    if text::eq_ignore_ascii_case(name, "process") || text::eq_ignore_ascii_case(name, "proc") {
        Some(MonitorSource::Process)
    } else if text::eq_ignore_ascii_case(name, "file") || text::eq_ignore_ascii_case(
        name,
        "filesystem",
    ) {
        Some(MonitorSource::File)
    } else if text::eq_ignore_ascii_case(name, "registry") || text::eq_ignore_ascii_case(
        name,
        "reg",
    ) {
        Some(MonitorSource::Registry)
    } else if text::eq_ignore_ascii_case(name, "network") || text::eq_ignore_ascii_case(
        name,
        "net",
    ) {
        Some(MonitorSource::Network)
    } else {
        None
    }
}

/// The sources that a list of names mentions; unknown names mention none.
pub open spec fn sources_named(names: Seq<String>) -> Set<MonitorSource> {
    Set::new(
        |s: MonitorSource|
            exists|i: int|
                0 <= i < names.len() && source_named(#[trigger] names[i]@) == Some(s),
    )
}

/// What a list of names selects: the sources it mentions, or every source where
/// it mentions none.
pub open spec fn selected_by(names: Seq<String>) -> Set<MonitorSource> {
    if sources_named(names) == Set::<MonitorSource>::empty() {
        Set::full()
    } else {
        sources_named(names)
    }
}

/// Builds the set of sources from source names (`process`, `file`, `registry`,
/// `network`, or the short forms `proc`, `filesystem`, `reg`, `net`) in either
/// case. An empty list, or one of unknown names only, selects every source.
pub fn parse_monitors(names: &[String]) -> (r: MonitorFlags)
    ensures
        r@ == selected_by(names@),
{
    let mut flags = MonitorFlags::empty();
    let mut i: usize = 0;
    assert(flags@ =~= sources_named(names@.take(0)));
    while i < names.len()
        invariant
            i <= names@.len(),
            flags@ == sources_named(names@.take(i as int)),
        decreases names@.len() - i,
    {
        let ghost before = names@.take(i as int);
        let ghost after = names@.take(i + 1);
        let source = parse_source(names[i].as_str());
        if let Some(s) = source {
            flags.insert(s);
        }
        proof {
            assert(after[i as int] == names@[i as int]);
            assert forall|s: MonitorSource| #[trigger]
                sources_named(after).contains(s) == (sources_named(before).contains(s)
                    || source == Some(s)) by {
                if sources_named(before).contains(s) {
                    let j = choose|j: int|
                        0 <= j < before.len() && source_named(#[trigger] before[j]@) == Some(s);
                    assert(after[j] == before[j]);
                }
                if sources_named(after).contains(s) {
                    let j = choose|j: int|
                        0 <= j < after.len() && source_named(#[trigger] after[j]@) == Some(s);
                    if j < i {
                        assert(before[j] == after[j]);
                    }
                }
            }
            assert(flags@ =~= sources_named(after));
        }
        i += 1;
    }
    assert(names@.take(names@.len() as int) == names@);
    if flags.is_empty() {
        MonitorFlags::all()
    } else {
        flags
    }
}

/// Whether events of `class` are kept when `monitors` are selected.
pub open spec fn class_selected(class: EventClass, monitors: Set<MonitorSource>) -> bool {
    match class {
        EventClass::Process => monitors.contains(MonitorSource::Process),
        EventClass::File => monitors.contains(MonitorSource::File),
        EventClass::Registry => monitors.contains(MonitorSource::Registry),
        EventClass::Network => monitors.contains(MonitorSource::Network),
        EventClass::Profiling | EventClass::Other => true,
    }
}

/// Whether an event of `class` is to be recorded, given the selected sources.
/// The driver reports process events whether or not they were selected, because
/// the process table is built from them; this keeps them out of the recording
/// unless they were asked for. Profiling and other events belong to no source
/// and pass through.
pub fn category_selected(class: EventClass, monitors: MonitorFlags) -> (r: bool)
    ensures
        r == class_selected(class, monitors@),
{
    match class {
        EventClass::Process => monitors.contains(MonitorSource::Process),
        EventClass::File => monitors.contains(MonitorSource::File),
        EventClass::Registry => monitors.contains(MonitorSource::Registry),
        EventClass::Network => monitors.contains(MonitorSource::Network),
        EventClass::Profiling | EventClass::Other => true,
    }
}

/// Whether `name` is made of the given lower-case letters, each in either case.
pub open spec fn spells(name: Seq<char>, letters: Seq<char>) -> bool {
    &&& name.len() == letters.len()
    &&& forall|i: int|
        0 <= i < name.len() ==> #[trigger] name[i] == letters[i] || name[i] as u32 + 32
            == letters[i] as u32
}

proof fn lemma_spells(name: Seq<char>, letters: Seq<char>)
    requires
        forall|i: int| 0 <= i < letters.len() ==> 97 <= (#[trigger] letters[i]) as u32 <= 122,
    ensures
        text::same_ignoring_case(name, letters) <==> spells(name, letters),
        text::same_ignoring_case(name, letters) ==> text::ascii_lowercase_of(name) == letters,
{
    text::case_is_ignored_in_ascii_letters_only(name, letters);
    assert(text::ascii_lowercase_of(letters) =~= letters);
    if text::same_ignoring_case(name, letters) {
        assert forall|i: int| 0 <= i < name.len() implies #[trigger] name[i] == letters[i]
            || name[i] as u32 + 32 == letters[i] as u32 by {
            assert(97 <= letters[i] as u32);
        }
    }
    if spells(name, letters) {
        assert forall|i: int| 0 <= i < name.len() implies {
            ||| #[trigger] name[i] == letters[i]
            ||| 65 <= name[i] as u32 <= 90 && letters[i] as u32 == name[i] as u32 + 32
            ||| 65 <= letters[i] as u32 <= 90 && name[i] as u32 == letters[i] as u32 + 32
        } by {
            assert(97 <= letters[i] as u32 <= 122);
        }
    }
}

/// The names of the sources, letter by letter: each source has a long and a short
/// name, both in either case, and no other name stands for it.
pub proof fn sources_have_two_names(name: Seq<char>)
    ensures
        source_named(name) == Some(MonitorSource::Process) <==> spells(
            name,
            seq!['p', 'r', 'o', 'c', 'e', 's', 's'],
        ) || spells(name, seq!['p', 'r', 'o', 'c']),
        source_named(name) == Some(MonitorSource::File) <==> spells(
            name,
            seq!['f', 'i', 'l', 'e'],
        ) || spells(name, seq!['f', 'i', 'l', 'e', 's', 'y', 's', 't', 'e', 'm']),
        source_named(name) == Some(MonitorSource::Registry) <==> spells(
            name,
            seq!['r', 'e', 'g', 'i', 's', 't', 'r', 'y'],
        ) || spells(name, seq!['r', 'e', 'g']),
        source_named(name) == Some(MonitorSource::Network) <==> spells(
            name,
            seq!['n', 'e', 't', 'w', 'o', 'r', 'k'],
        ) || spells(name, seq!['n', 'e', 't']),
{
    reveal_strlit("process");
    reveal_strlit("proc");
    reveal_strlit("file");
    reveal_strlit("filesystem");
    reveal_strlit("registry");
    reveal_strlit("reg");
    reveal_strlit("network");
    reveal_strlit("net");
    let process = seq!['p', 'r', 'o', 'c', 'e', 's', 's'];
    let file = seq!['f', 'i', 'l', 'e'];
    let filesystem = seq!['f', 'i', 'l', 'e', 's', 'y', 's', 't', 'e', 'm'];
    let registry = seq!['r', 'e', 'g', 'i', 's', 't', 'r', 'y'];
    let network = seq!['n', 'e', 't', 'w', 'o', 'r', 'k'];
    assert("process"@ =~= process);
    assert("proc"@ =~= seq!['p', 'r', 'o', 'c']);
    assert("file"@ =~= file);
    assert("filesystem"@ =~= filesystem);
    assert("registry"@ =~= registry);
    assert("reg"@ =~= seq!['r', 'e', 'g']);
    assert("network"@ =~= network);
    assert("net"@ =~= seq!['n', 'e', 't']);
    lemma_spells(name, process);
    lemma_spells(name, seq!['p', 'r', 'o', 'c']);
    lemma_spells(name, file);
    lemma_spells(name, filesystem);
    lemma_spells(name, registry);
    lemma_spells(name, seq!['r', 'e', 'g']);
    lemma_spells(name, network);
    lemma_spells(name, seq!['n', 'e', 't']);
    let first = text::ascii_lowercase_of(name)[0];
    assert(process[0] == 'p' && file[0] == 'f' && filesystem[0] == 'f' && registry[0] == 'r'
        && network[0] == 'n');
    assert(seq!['p', 'r', 'o', 'c'][0] == 'p');
    assert(seq!['r', 'e', 'g'][0] == 'r');
    assert(seq!['n', 'e', 't'][0] == 'n');
}

/// What a list of names selects, source by source: one is selected exactly if some
/// name in the list, at whatever place, stands for it, or if no name in the list
/// stands for any.
pub proof fn every_name_counts(names: Seq<String>, s: MonitorSource)
    ensures
        selected_by(names).contains(s) <==> {
            ||| exists|i: int|
                0 <= i < names.len() && source_named(#[trigger] names[i]@) == Some(s)
            ||| forall|i: int| 0 <= i < names.len() ==> source_named(#[trigger] names[i]@) is None
        },
{
    if forall|i: int| 0 <= i < names.len() ==> source_named(#[trigger] names[i]@) is None {
        unknown_names_select_everything(names);
    } else {
        let i = choose|i: int|
            0 <= i < names.len() && !(source_named(#[trigger] names[i]@) is None);
        assert(sources_named(names).contains(source_named(names[i]@)->0));
    }
}

/// A name more adds its source to what a list selects that mentions a source already,
/// and an unknown name adds nothing.
pub proof fn names_add_up(names: Seq<String>, name: String, s: MonitorSource)
    requires
        exists|i: int| 0 <= i < names.len() && source_named(#[trigger] names[i]@) is Some,
    ensures
        selected_by(names.push(name)).contains(s) <==> selected_by(names).contains(s)
            || source_named(name@) == Some(s),
{
    let more = names.push(name);
    let k = choose|i: int| 0 <= i < names.len() && source_named(#[trigger] names[i]@) is Some;
    assert(more[k] == names[k]);
    every_name_counts(names, s);
    every_name_counts(more, s);
    assert(more[names.len() as int] == name);
    if exists|i: int| 0 <= i < names.len() && source_named(#[trigger] names[i]@) == Some(s) {
        let i = choose|i: int|
            0 <= i < names.len() && source_named(#[trigger] names[i]@) == Some(s);
        assert(more[i] == names[i]);
    }
    if exists|i: int| 0 <= i < more.len() && source_named(#[trigger] more[i]@) == Some(s) {
        let i = choose|i: int|
            0 <= i < more.len() && source_named(#[trigger] more[i]@) == Some(s);
        if i < names.len() {
            assert(names[i] == more[i]);
        }
    }
}

/// Each class is kept by its own source alone: adding or leaving out another source
/// makes no difference to it.
pub proof fn classes_follow_their_own_source(monitors: Set<MonitorSource>)
    ensures
        class_selected(EventClass::Process, monitors) <==> monitors.contains(
            MonitorSource::Process,
        ),
        class_selected(EventClass::File, monitors) <==> monitors.contains(MonitorSource::File),
        class_selected(EventClass::Registry, monitors) <==> monitors.contains(
            MonitorSource::Registry,
        ),
        class_selected(EventClass::Network, monitors) <==> monitors.contains(
            MonitorSource::Network,
        ),
        class_selected(EventClass::Profiling, monitors),
        class_selected(EventClass::Other, monitors),
{
}

/// No list of names selects nothing.
pub proof fn selection_is_never_empty(names: Seq<String>)
    ensures
        exists|s: MonitorSource| selected_by(names).contains(s),
{
    if sources_named(names) == Set::<MonitorSource>::empty() {
        assert(selected_by(names).contains(MonitorSource::Process));
    } else {
        if forall|s: MonitorSource| !(#[trigger] sources_named(names).contains(s)) {
            assert(sources_named(names) =~= Set::<MonitorSource>::empty());
        }
        let s = choose|s: MonitorSource| #[trigger] sources_named(names).contains(s);
        assert(selected_by(names).contains(s));
    }
}

/// A list without a known name, the empty list among them, selects every source.
pub proof fn unknown_names_select_everything(names: Seq<String>)
    requires
        forall|i: int| 0 <= i < names.len() ==> source_named(#[trigger] names[i]@) is None,
    ensures
        selected_by(names) == Set::<MonitorSource>::full(),
{
    assert(sources_named(names) =~= Set::<MonitorSource>::empty());
}

/// The case of ASCII letters does not matter.
pub proof fn names_select_in_either_case(a: Seq<String>, b: Seq<String>)
    requires
        a.len() == b.len(),
        forall|i: int| 0 <= i < a.len() ==> text::same_ignoring_case(#[trigger] a[i]@, b[i]@),
    ensures
        selected_by(a) == selected_by(b),
{
    assert forall|s: MonitorSource|
        sources_named(a).contains(s) == sources_named(b).contains(s) by {
        if sources_named(a).contains(s) {
            let i = choose|i: int|
                0 <= i < a.len() && source_named(#[trigger] a[i]@) == Some(s);
            assert(source_named(b[i]@) == Some(s));
        }
        if sources_named(b).contains(s) {
            let i = choose|i: int|
                0 <= i < b.len() && source_named(#[trigger] b[i]@) == Some(s);
            assert(text::same_ignoring_case(a[i]@, b[i]@));
            assert(source_named(a[i]@) == Some(s));
        }
    }
    assert(sources_named(a) =~= sources_named(b));
}

/// Neither the order of the names nor repetition matters: lists that mention
/// the same names select the same sources.
pub proof fn order_and_repetition_do_not_matter(a: Seq<String>, b: Seq<String>)
    requires
        forall|i: int| 0 <= i < a.len() ==> b.contains(#[trigger] a[i]),
        forall|i: int| 0 <= i < b.len() ==> a.contains(#[trigger] b[i]),
    ensures
        selected_by(a) == selected_by(b),
{
    assert forall|s: MonitorSource|
        sources_named(a).contains(s) == sources_named(b).contains(s) by {
        if sources_named(a).contains(s) {
            let i = choose|i: int|
                0 <= i < a.len() && source_named(#[trigger] a[i]@) == Some(s);
            assert(b.contains(a[i]));
            let j = choose|j: int| 0 <= j < b.len() && b[j] == a[i];
            assert(source_named(b[j]@) == Some(s));
        }
        if sources_named(b).contains(s) {
            let i = choose|i: int|
                0 <= i < b.len() && source_named(#[trigger] b[i]@) == Some(s);
            assert(a.contains(b[i]));
            let j = choose|j: int| 0 <= j < a.len() && a[j] == b[i];
            assert(source_named(a[j]@) == Some(s));
        }
    }
    assert(sources_named(a) =~= sources_named(b));
}

/// Events that belong to no source are kept whatever is selected, and with every
/// source selected every event is kept.
pub proof fn selection_gates_sources_only(monitors: Set<MonitorSource>, class: EventClass)
    ensures
        class is Profiling || class is Other ==> class_selected(class, monitors),
        class_selected(class, Set::<MonitorSource>::full()),
{
}

} // verus!
