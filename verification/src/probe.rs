//! Loading the probes into the kernel.

use vstd::prelude::*;

use crate::text;
use crate::text::{find_char, lines, parse_unsigned, same_text, split, strip_prefix, trim, words};

verus! {

// ---------------------------------------------------------------------------
// Where the fields of tracepoints lie
// ---------------------------------------------------------------------------

/// Where the trace file system is usually found.
pub const TRACEFS: &'static str = "/sys/kernel/tracing";

/// Where it is found on older kernels.
pub const TRACEFS_DEBUG: &'static str = "/sys/kernel/debug/tracing";

/// The root of the trace file system. The two flags say which of the places
/// [`TRACEFS`] and [`TRACEFS_DEBUG`] are there.
pub fn tracefs_root(tracing: bool, debug_tracing: bool) -> (root: Option<&'static str>)
    ensures
        root == (if tracing {
            Some(TRACEFS)
        } else if debug_tracing {
            Some(TRACEFS_DEBUG)
        } else {
            None
        }),
{
    if tracing {
        Some(TRACEFS)
    } else if debug_tracing {
        Some(TRACEFS_DEBUG)
    } else {
        None
    }
}

/// Path of the file that describes the fields of a tracepoint.
pub fn format_path(root: &str, category: &str, name: &str) -> (path: String)
    ensures
        path@ == root@ + "/events/"@ + category@ + "/"@ + name@ + "/format"@,
{
    root.to_owned().concat("/events/").concat(category).concat("/").concat(name).concat("/format")
}

/// The name in the declaration `decl` of a field: the last word, up to the bracket
/// of an array.
pub open spec fn field_name(decl: Seq<char>) -> Seq<char> {
    let ws = text::words_of(decl);
    if ws.len() == 0 {
        seq![]
    } else {
        ws.last().take(text::find(ws.last(), seq!['[']) as int)
    }
}

/// The offset that `part` of a field's description gives.
pub open spec fn part_offset(part: Seq<char>) -> Option<nat> {
    let p = text::trimmed(part);
    if text::has_prefix(p, "offset:"@) {
        text::parsed_unsigned(text::trimmed(p.skip("offset:"@.len() as int)), u32::MAX as nat)
    } else {
        None
    }
}

/// The first offset that one of `parts` gives.
pub open spec fn first_offset(parts: Seq<Seq<char>>) -> Option<nat>
    decreases parts.len(),
{
    if parts.len() == 0 {
        None
    } else if part_offset(parts[0]) is Some {
        part_offset(parts[0])
    } else {
        first_offset(parts.skip(1))
    }
}

/// The field that `line` describes, and where it lies. Such a line starts with
/// `field:`; the parts behind it are set off by semicolons, the declaration first.
pub open spec fn line_field(line: Seq<char>) -> Option<(Seq<char>, nat)> {
    let l = text::trimmed(line);
    let parts = text::split_on(l.skip("field:"@.len() as int), seq![';']);
    let name = field_name(text::trimmed(parts[0]));
    match first_offset(parts.skip(1)) {
        Some(off) if text::has_prefix(l, "field:"@) && name.len() > 0 => Some((name, off)),
        _ => None,
    }
}

/// The fields that `ls` describe. Of two fields with one name the later counts.
pub open spec fn fields_in(ls: Seq<Seq<char>>) -> Map<Seq<char>, nat>
    decreases ls.len(),
{
    if ls.len() == 0 {
        Map::empty()
    } else {
        let m = fields_in(ls.drop_last());
        match line_field(ls.last()) {
            Some((name, off)) => m.insert(name, off),
            None => m,
        }
    }
}

/// Where the fields of a tracepoint lie.
pub struct FieldOffsets {
    /// Names and offsets. Of two with one name the later counts.
    pub fields: Vec<(String, u32)>,
}

/// The table that a list of names and offsets stands for.
pub open spec fn table_of(fields: Seq<(String, u32)>) -> Map<Seq<char>, nat>
    decreases fields.len(),
{
    if fields.len() == 0 {
        Map::empty()
    } else {
        table_of(fields.drop_last()).insert(fields.last().0@, fields.last().1 as nat)
    }
}

impl View for FieldOffsets {
    type V = Map<Seq<char>, nat>;

    open spec fn view(&self) -> Map<Seq<char>, nat> {
        table_of(self.fields@)
    }
}

impl FieldOffsets {
    /// Where the field `name` lies.
    pub fn get(&self, name: &str) -> (out: Option<u32>)
        ensures
            out is Some <==> self@.contains_key(name@),
            out matches Some(off) ==> off == self@[name@],
    {
        let mut i = self.fields.len();
        assert(self.fields@.take(i as int) =~= self.fields@);
        while i > 0
            invariant
                i <= self.fields@.len(),
                self@.contains_key(name@) <==> table_of(self.fields@.take(i as int)).contains_key(
                    name@,
                ),
                self@.contains_key(name@) ==> self@[name@] == table_of(
                    self.fields@.take(i as int),
                )[name@],
            decreases i,
        {
            i = i - 1;
            assert(self.fields@.take(i + 1).drop_last() =~= self.fields@.take(i as int));
            assert(self.fields@.take(i + 1).last() == self.fields@[i as int]);
            if same_text(self.fields[i].0.as_str(), name) {
                return Some(self.fields[i].1);
            }
        }
        None
    }
}

/// The offset that `part` of a field's description gives.
fn parse_offset(part: &str) -> (out: Option<u32>)
    ensures
        out is Some <==> part_offset(part@) is Some,
        out matches Some(off) ==> part_offset(part@) == Some(off as nat),
{
    match strip_prefix(trim(part), "offset:") {
        Some(rest) => match parse_unsigned(trim(rest), u32::MAX as u64) {
            Some(off) => Some(off as u32),
            None => None,
        },
        None => None,
    }
}

/// The field that `line` describes, and where it lies.
fn parse_field(line: &str) -> (out: Option<(String, u32)>)
    ensures
        out is Some <==> line_field(line@) is Some,
        out matches Some((name, off)) ==> line_field(line@) == Some((name@, off as nat)),
{
    let rest = match strip_prefix(trim(line), "field:") {
        Some(r) => r,
        None => {
            return None;
        },
    };
    let parts = split(rest, &[';']);
    assert([';']@ =~= seq![';']);
    let ghost all = text::views(parts@);
    assert(all == text::split_on(rest@, seq![';']));
    assert(all[0] == parts@[0]@);
    let ws = words(trim(parts[0]));
    let name = if ws.len() == 0 {
        ""
    } else {
        let last = ws[ws.len() - 1];
        proof {
            assert(text::views(ws@).last() == last@);
            text::lemma_find(last@, seq!['[']);
            assert(last@.take(last@.len() as int) =~= last@);
        }
        match find_char(last, '[') {
            Some(k) => last.substring_char(0, k),
            None => last,
        }
    };
    assert(name@ =~= field_name(text::trimmed(all[0]))) by {
        reveal_strlit("");
    }
    if name.is_empty() {
        return None;
    }
    assert(all.skip(1) =~= all.subrange(1, all.len() as int));
    for i in 1..parts.len()
        invariant
            all == text::views(parts@),
            first_offset(all.skip(1)) == first_offset(all.skip(i as int)),
            line_field(line@) == (match first_offset(all.skip(1)) {
                Some(off) => Some((name@, off)),
                None => None,
            }),
    {
        assert(all.skip(i as int)[0] == parts@[i as int]@);
        assert(all.skip(i as int).skip(1) =~= all.skip(i + 1));
        if let Some(off) = parse_offset(parts[i]) {
            return Some((name.to_owned(), off));
        }
    }
    None
}

/// Where the fields of a tracepoint lie, by `content`, its description, or `None`
/// where that could not be read.
pub fn tracepoint_parse(content: Option<&str>) -> (out: Option<FieldOffsets>)
    ensures
        out is Some <==> content is Some,
        out matches Some(f) ==> f@ == fields_in(text::lines_of(content->0@)),
{
    let body = match content {
        Some(t) => t,
        None => {
            return None;
        },
    };
    let ls = lines(body);
    let ghost all = text::views(ls@);
    let mut fields: Vec<(String, u32)> = Vec::new();
    assert(all.take(0) =~= Seq::<Seq<char>>::empty());
    for i in 0..ls.len()
        invariant
            all == text::views(ls@),
            table_of(fields@) == fields_in(all.take(i as int)),
    {
        assert(all.take(i + 1).drop_last() =~= all.take(i as int));
        assert(all.take(i + 1).last() == ls@[i as int]@);
        if let Some((name, off)) = parse_field(ls[i]) {
            let ghost before = fields@;
            fields.push((name, off));
            assert(fields@.drop_last() =~= before);
        }
    }
    assert(all.take(all.len() as int) =~= all);
    Some(FieldOffsets { fields })
}

/// Where the probes find what they read, as they expect it.
#[derive(Clone, Copy, PartialEq, Eq, Structural)]
pub struct EbpfOffsets {
    /// The new thread, in the event of its start.
    pub fork_child_pid: u32,
    /// Its name there.
    pub fork_child_comm: u32,
    /// The new name, in the event of a change of name.
    pub rename_newcomm: u32,
    /// The group, in the event of a move to a control group; 0 where unknown.
    pub cg_dst_id: u32,
    /// The process there; 0 where unknown.
    pub cg_pid: u32,
}

/// The offset of the field `name`, or 0.
pub open spec fn offset_or_zero(fields: Map<Seq<char>, nat>, name: Seq<char>) -> nat {
    if fields.contains_key(name) {
        fields[name]
    } else {
        0
    }
}

/// The fields that `content` describes; none where there is no content.
pub open spec fn fields_of(content: Option<Seq<char>>) -> Map<Seq<char>, nat> {
    match content {
        Some(t) => fields_in(text::lines_of(t)),
        None => Map::empty(),
    }
}

/// Where the probes find what they read, by the descriptions of the three
/// tracepoints, each `None` where it could not be read. The first two are needed.
/// Without the third only the events of processes coming to the foreground are
/// missed.
pub fn offsets_from(fork: Option<&str>, rename: Option<&str>, cgroup: Option<&str>) -> (out: Option<
    EbpfOffsets,
>)
    ensures
        ({
            let f = fields_of(fork.deep_view());
            let r = fields_of(rename.deep_view());
            let c = fields_of(cgroup.deep_view());
            &&& out is Some <==> f.contains_key("child_pid"@) && f.contains_key("child_comm"@)
                && r.contains_key("newcomm"@)
            &&& out matches Some(o) ==> {
                &&& o.fork_child_pid == f["child_pid"@]
                &&& o.fork_child_comm == f["child_comm"@]
                &&& o.rename_newcomm == r["newcomm"@]
                &&& o.cg_dst_id == offset_or_zero(c, "dst_id"@)
                &&& o.cg_pid == offset_or_zero(c, "pid"@)
            }
        }),
{
    let fork_fields = match tracepoint_parse(fork) {
        Some(f) => f,
        None => {
            return None;
        },
    };
    let rename_fields = match tracepoint_parse(rename) {
        Some(f) => f,
        None => {
            return None;
        },
    };
    let cg = match tracepoint_parse(cgroup) {
        Some(f) => f,
        None => FieldOffsets { fields: Vec::new() },
    };
    assert(cg@ == fields_of(cgroup.deep_view()));
    let fork_child_pid = match fork_fields.get("child_pid") {
        Some(off) => off,
        None => {
            return None;
        },
    };
    let fork_child_comm = match fork_fields.get("child_comm") {
        Some(off) => off,
        None => {
            return None;
        },
    };
    let rename_newcomm = match rename_fields.get("newcomm") {
        Some(off) => off,
        None => {
            return None;
        },
    };
    let cg_dst_id = match cg.get("dst_id") {
        Some(off) => off,
        None => 0,
    };
    let cg_pid = match cg.get("pid") {
        Some(off) => off,
        None => 0,
    };
    Some(EbpfOffsets { fork_child_pid, fork_child_comm, rename_newcomm, cg_dst_id, cg_pid })
}

/// The name of a field is the last word of its declaration, whatever stands before it,
/// up to the bracket of an array.
pub proof fn law_field_names_end_declarations(
    front: Seq<char>,
    space: char,
    name: Seq<char>,
    bracket: Seq<char>,
)
    requires
        text::is_space(space),
        name.len() > 0,
        forall|i: int|
            0 <= i < name.len() ==> #[trigger] name[i] != '[' && !text::is_space(name[i]),
        bracket.len() > 0 ==> bracket[0] == '[',
        forall|i: int| 0 <= i < bracket.len() ==> !text::is_space(#[trigger] bracket[i]),
    ensures
        field_name(front + seq![space] + (name + bracket)) == name,
        field_name(name + bracket) == name,
{
    let word = name + bracket;
    let open = seq!['['];
    assert(open[0] == '[');
    assert forall|i: int| 0 <= i < word.len() implies !text::is_space(#[trigger] word[i]) by {
        if i < name.len() {
            assert(word[i] == name[i]);
        } else {
            assert(word[i] == bracket[i - name.len()]);
        }
    }
    text::law_white_space_separates_words(Seq::empty(), word, Seq::empty());
    assert(Seq::<char>::empty() + word + Seq::<char>::empty() =~= word);
    assert(text::words_of(Seq::<char>::empty()) =~= Seq::<Seq<char>>::empty());
    assert(text::words_of(word) =~= seq![word]);
    text::law_words_add_up(front, space, word);
    let all = text::words_of(front + seq![space] + word);
    assert(all.last() == word);
    assert forall|j: int| 0 <= j < name.len() implies !open.contains(#[trigger] word[j]) by {
        assert(word[j] == name[j]);
    }
    if bracket.len() > 0 {
        assert(word[name.len() as int] == '[');
    }
    text::lemma_find_is(word, open, name.len());
    assert(word.take(name.len() as int) =~= name);
}

/// A part of a description gives an offset exactly where it is `offset:` and a number
/// of 32 bits, with or without white space around either.
pub proof fn law_offsets_are_labelled(
    front: Seq<char>,
    back: Seq<char>,
    n: nat,
    part: Seq<char>,
)
    requires
        n <= u32::MAX,
        forall|i: int| 0 <= i < front.len() ==> text::is_space(#[trigger] front[i]),
        forall|i: int| 0 <= i < back.len() ==> text::is_space(#[trigger] back[i]),
    ensures
        part_offset(
            front + (seq!['o', 'f', 'f', 's', 'e', 't', ':'] + text::decimal_text(n)) + back,
        ) == Some(n),
        !text::has_prefix(text::trimmed(part), seq!['o', 'f', 'f', 's', 'e', 't', ':'])
            ==> part_offset(part) is None,
{
    reveal_strlit("offset:");
    let label = seq!['o', 'f', 'f', 's', 'e', 't', ':'];
    assert("offset:"@ =~= label);
    let d = text::decimal_text(n);
    let core = label + d;
    text::lemma_decimal_round_trip(n);
    assert(text::is_digit(d[0]));
    assert(text::is_digit(d[d.len() - 1]));
    assert(core[0] == 'o');
    assert(core.last() == d[d.len() - 1]);
    text::law_trimming_takes_white_space_alone(front, core, back);
    text::law_prefixes_and_suffixes_are_parts(label, d, core);
    assert(core.skip(label.len() as int) =~= d);
    text::lemma_trimmed_is(d, 0, d.len() as int);
    assert(d.subrange(0, d.len() as int) =~= d);
}

/// The offset of a description is the first that one of its parts gives.
proof fn lemma_first_offset(parts: Seq<Seq<char>>)
    ensures
        first_offset(parts) is None <==> forall|i: int|
            0 <= i < parts.len() ==> part_offset(#[trigger] parts[i]) is None,
        first_offset(parts) is Some ==> exists|i: int|
            0 <= i < parts.len() && part_offset(#[trigger] parts[i]) == first_offset(parts)
                && forall|j: int| 0 <= j < i ==> part_offset(#[trigger] parts[j]) is None,
    decreases parts.len(),
{
    if parts.len() > 0 {
        let rest = parts.skip(1);
        lemma_first_offset(rest);
        if part_offset(parts[0]) is None {
            if first_offset(rest) is Some {
                let i = choose|i: int|
                    0 <= i < rest.len() && part_offset(#[trigger] rest[i]) == first_offset(rest)
                        && forall|j: int| 0 <= j < i ==> part_offset(#[trigger] rest[j]) is None;
                assert(parts[i + 1] == rest[i]);
                assert forall|j: int| 0 <= j < i + 1 implies part_offset(
                    #[trigger] parts[j],
                ) is None by {
                    if j > 0 {
                        assert(rest[j - 1] == parts[j]);
                    }
                }
            } else {
                assert forall|i: int| 0 <= i < parts.len() implies part_offset(
                    #[trigger] parts[i],
                ) is None by {
                    if i > 0 {
                        assert(rest[i - 1] == parts[i]);
                    }
                }
            }
        } else {
            assert(part_offset(parts[0]) == first_offset(parts));
        }
    }
}

/// A line describes a field exactly where, white space around it aside, it starts with
/// `field:`, names the field before the first semicolon, and gives an offset in some
/// part behind it. The first such offset counts.
pub proof fn law_field_lines_name_and_place(line: Seq<char>, decl: Seq<char>, rest: Seq<char>)
    requires
        text::trimmed(line) == seq!['f', 'i', 'e', 'l', 'd', ':'] + decl + seq![';'] + rest,
        forall|i: int| 0 <= i < decl.len() ==> #[trigger] decl[i] != ';',
    ensures
        ({
            let name = field_name(text::trimmed(decl));
            let parts = text::split_on(rest, seq![';']);
            &&& line_field(line) is Some <==> name.len() > 0 && exists|i: int|
                0 <= i < parts.len() && part_offset(#[trigger] parts[i]) is Some
            &&& line_field(line) is Some ==> exists|i: int|
                0 <= i < parts.len() && part_offset(#[trigger] parts[i]) is Some && line_field(line)
                    == Some((name, part_offset(parts[i])->0)) && forall|j: int|
                    0 <= j < i ==> part_offset(#[trigger] parts[j]) is None
        }),
{
    reveal_strlit("field:");
    let label = seq!['f', 'i', 'e', 'l', 'd', ':'];
    let semi = seq![';'];
    assert("field:"@ =~= label);
    let l = text::trimmed(line);
    let body = decl + semi + rest;
    assert(l =~= label + body);
    text::law_prefixes_and_suffixes_are_parts(label, body, l);
    assert(l.skip(label.len() as int) =~= body);
    assert(semi[0] == ';');
    text::law_separators_split(decl, ';', rest, semi);
    assert forall|i: int| 0 <= i < decl.len() implies !semi.contains(#[trigger] decl[i]) by {
        assert(decl[i] != ';');
    }
    let all = text::split_on(body, semi);
    let parts = text::split_on(rest, semi);
    assert(all =~= seq![decl] + parts);
    assert(all[0] == decl);
    assert(all.skip(1) =~= parts);
    lemma_first_offset(parts);
    if first_offset(parts) is Some {
        let i = choose|i: int|
            0 <= i < parts.len() && part_offset(#[trigger] parts[i]) == first_offset(parts)
                && forall|j: int| 0 <= j < i ==> part_offset(#[trigger] parts[j]) is None;
        assert(part_offset(parts[i]) is Some);
    }
}

/// A line that does not start with `field:`, white space aside, describes no field.
pub proof fn law_other_lines_describe_nothing(line: Seq<char>)
    requires
        !text::has_prefix(text::trimmed(line), seq!['f', 'i', 'e', 'l', 'd', ':']),
    ensures
        line_field(line) is None,
{
    reveal_strlit("field:");
    assert("field:"@ =~= seq!['f', 'i', 'e', 'l', 'd', ':']);
}

/// Whether `line` describes the field `name`.
pub open spec fn describes(line: Seq<char>, name: Seq<char>) -> bool {
    line_field(line) matches Some((n, _)) && n == name
}

/// A description holds exactly the fields that its lines describe, and of several
/// lines that describe one field the last counts.
pub proof fn law_the_last_description_of_a_field_counts(ls: Seq<Seq<char>>, name: Seq<char>)
    ensures
        fields_in(ls).contains_key(name) <==> exists|i: int|
            0 <= i < ls.len() && describes(#[trigger] ls[i], name),
        fields_in(ls).contains_key(name) ==> exists|i: int|
            0 <= i < ls.len() && line_field(#[trigger] ls[i]) == Some((name, fields_in(ls)[name]))
                && forall|j: int| i < j < ls.len() ==> !describes(#[trigger] ls[j], name),
    decreases ls.len(),
{
    if ls.len() > 0 {
        let rest = ls.drop_last();
        let n = ls.len() - 1;
        law_the_last_description_of_a_field_counts(rest, name);
        assert(ls.last() == ls[n]);
        assert(forall|i: int| 0 <= i < rest.len() ==> #[trigger] rest[i] == ls[i]);
        if describes(ls[n], name) {
            assert(line_field(ls[n]) == Some((name, fields_in(ls)[name])));
        } else {
            assert(fields_in(ls).contains_key(name) == fields_in(rest).contains_key(name));
            if fields_in(rest).contains_key(name) {
                assert(fields_in(ls)[name] == fields_in(rest)[name]);
                let i = choose|i: int|
                    0 <= i < rest.len() && line_field(#[trigger] rest[i]) == Some(
                        (name, fields_in(rest)[name]),
                    ) && forall|j: int|
                        i < j < rest.len() ==> !describes(#[trigger] rest[j], name);
                assert(line_field(ls[i]) == Some((name, fields_in(ls)[name])));
                assert(describes(ls[i], name));
                assert forall|j: int| i < j < ls.len() implies !describes(
                    #[trigger] ls[j],
                    name,
                ) by {
                    if j < n {
                        assert(rest[j] == ls[j]);
                    }
                }
            } else if exists|i: int| 0 <= i < ls.len() && describes(#[trigger] ls[i], name) {
                let i = choose|i: int| 0 <= i < ls.len() && describes(#[trigger] ls[i], name);
                assert(describes(rest[i], name));
            }
        }
    }
}

// ---------------------------------------------------------------------------
// The steps of loading
// ---------------------------------------------------------------------------

/// A place in the kernel that a probe is attached to.
#[derive(Clone, Copy, PartialEq, Eq, Structural)]
pub enum Tracepoint {
    /// A thread is started.
    Fork,
    /// A process gets a new program.
    Exec,
    /// A thread ends.
    Exit,
    /// A thread gets a new name.
    Rename,
    /// A process is moved to a control group.
    Cgroup,
}

impl Tracepoint {
    /// The tracepoint's category.
    pub fn category(&self) -> (s: &'static str)
        ensures
            s@ == (match self {
                Tracepoint::Fork | Tracepoint::Exec | Tracepoint::Exit => "sched"@,
                Tracepoint::Rename => "task"@,
                Tracepoint::Cgroup => "cgroup"@,
            }),
    {
        match self {
            Tracepoint::Fork => "sched",
            Tracepoint::Exec => "sched",
            Tracepoint::Exit => "sched",
            Tracepoint::Rename => "task",
            Tracepoint::Cgroup => "cgroup",
        }
    }

    /// The tracepoint's name, which is the probe's too.
    pub fn name(&self) -> (s: &'static str)
        ensures
            s@ == (match self {
                Tracepoint::Fork => "sched_process_fork"@,
                Tracepoint::Exec => "sched_process_exec"@,
                Tracepoint::Exit => "sched_process_exit"@,
                Tracepoint::Rename => "task_rename"@,
                Tracepoint::Cgroup => "cgroup_attach_task"@,
            }),
    {
        match self {
            Tracepoint::Fork => "sched_process_fork",
            Tracepoint::Exec => "sched_process_exec",
            Tracepoint::Exit => "sched_process_exit",
            Tracepoint::Rename => "task_rename",
            Tracepoint::Cgroup => "cgroup_attach_task",
        }
    }

    /// Whether loading fails without this probe.
    pub open spec fn is_required(self) -> bool {
        self is Fork || self is Exec || self is Exit
    }

    /// Whether loading fails without this probe.
    pub fn required(&self) -> (b: bool)
        ensures
            b == self.is_required(),
    {
        match self {
            Tracepoint::Fork => true,
            Tracepoint::Exec => true,
            Tracepoint::Exit => true,
            Tracepoint::Rename => false,
            Tracepoint::Cgroup => false,
        }
    }
}

/// What loading the probes has come to, and with it what to do next.
#[derive(Clone, Copy, PartialEq, Eq, Structural)]
pub enum ProbeStep {
    /// Load the program.
    Load,
    /// Tell it where the fields of the tracepoints lie. This comes before any probe
    /// is attached, so that none runs without.
    Inject,
    /// Attach a probe.
    Attach { at: Tracepoint },
    /// Make the descriptor that the reader is woken by.
    MakeWakeup,
    /// Take over the buffer of events, and start its reader.
    TakeEvents,
    /// Tell the program which control groups are the foreground's.
    InitForeground,
    /// The probes are at work.
    Ready,
    /// There are no probes; processes are to be polled.
    Off,
}

/// Loading the probes.
pub struct ProbeRun {
    /// What it has come to.
    pub step: ProbeStep,
    /// Whether every required probe that was tried is attached.
    pub required_ok: bool,
    /// Whether moves to control groups are reported.
    pub fg_ok: bool,
}

/// The probe that is attached after `at`.
pub open spec fn next_probe(at: Tracepoint) -> Option<Tracepoint> {
    match at {
        Tracepoint::Fork => Some(Tracepoint::Exec),
        Tracepoint::Exec => Some(Tracepoint::Exit),
        Tracepoint::Exit => Some(Tracepoint::Rename),
        Tracepoint::Rename => Some(Tracepoint::Cgroup),
        Tracepoint::Cgroup => None,
    }
}

/// Loading after a step that succeeded where `ok` is on. Every probe is tried
/// before a missing one ends the loading; what concerns the foreground ends nothing.
pub open spec fn probe_next(r: ProbeRun, ok: bool) -> ProbeRun {
    match r.step {
        ProbeStep::Load => ProbeRun {
            step: if ok {
                ProbeStep::Inject
            } else {
                ProbeStep::Off
            },
            ..r
        },
        ProbeStep::Inject => ProbeRun {
            step: if ok {
                ProbeStep::Attach { at: Tracepoint::Fork }
            } else {
                ProbeStep::Off
            },
            ..r
        },
        ProbeStep::Attach { at } => {
            let required_ok = r.required_ok && (ok || !at.is_required());
            ProbeRun {
                step: match next_probe(at) {
                    Some(next) => ProbeStep::Attach { at: next },
                    None => if required_ok {
                        ProbeStep::MakeWakeup
                    } else {
                        ProbeStep::Off
                    },
                },
                required_ok,
                fg_ok: if at is Cgroup {
                    ok
                } else {
                    r.fg_ok
                },
            }
        },
        ProbeStep::MakeWakeup => ProbeRun {
            step: if ok {
                ProbeStep::TakeEvents
            } else {
                ProbeStep::Off
            },
            ..r
        },
        ProbeStep::TakeEvents => ProbeRun {
            step: if !ok {
                ProbeStep::Off
            } else if r.fg_ok {
                ProbeStep::InitForeground
            } else {
                ProbeStep::Ready
            },
            ..r
        },
        ProbeStep::InitForeground => ProbeRun { step: ProbeStep::Ready, ..r },
        ProbeStep::Ready => r,
        ProbeStep::Off => r,
    }
}

/// Starts loading the probes, where `enable` asks for it.
pub fn probe(enable: bool) -> (run: ProbeRun)
    ensures
        run == (ProbeRun {
            step: if enable {
                ProbeStep::Load
            } else {
                ProbeStep::Off
            },
            required_ok: true,
            fg_ok: false,
        }),
{
    ProbeRun {
        step: if enable {
            ProbeStep::Load
        } else {
            ProbeStep::Off
        },
        required_ok: true,
        fg_ok: false,
    }
}

impl ProbeRun {
    /// Takes whether the step succeeded.
    pub fn advance(&mut self, ok: bool)
        ensures
            *final(self) == probe_next(*old(self), ok),
    {
        match self.step {
            ProbeStep::Load => {
                self.step = if ok {
                    ProbeStep::Inject
                } else {
                    ProbeStep::Off
                };
            },
            ProbeStep::Inject => {
                self.step = if ok {
                    ProbeStep::Attach { at: Tracepoint::Fork }
                } else {
                    ProbeStep::Off
                };
            },
            ProbeStep::Attach { at } => {
                if !ok && at.required() {
                    self.required_ok = false;
                }
                self.step = match at {
                    Tracepoint::Fork => ProbeStep::Attach { at: Tracepoint::Exec },
                    Tracepoint::Exec => ProbeStep::Attach { at: Tracepoint::Exit },
                    Tracepoint::Exit => ProbeStep::Attach { at: Tracepoint::Rename },
                    Tracepoint::Rename => ProbeStep::Attach { at: Tracepoint::Cgroup },
                    Tracepoint::Cgroup => {
                        self.fg_ok = ok;
                        if self.required_ok {
                            ProbeStep::MakeWakeup
                        } else {
                            ProbeStep::Off
                        }
                    },
                };
            },
            ProbeStep::MakeWakeup => {
                self.step = if ok {
                    ProbeStep::TakeEvents
                } else {
                    ProbeStep::Off
                };
            },
            ProbeStep::TakeEvents => {
                self.step = if !ok {
                    ProbeStep::Off
                } else if self.fg_ok {
                    ProbeStep::InitForeground
                } else {
                    ProbeStep::Ready
                };
            },
            ProbeStep::InitForeground => {
                self.step = ProbeStep::Ready;
            },
            ProbeStep::Ready => {},
            ProbeStep::Off => {},
        }
    }
}

/// Loading after `steps` steps, of which `works` says which succeed.
pub open spec fn probe_run(r: ProbeRun, works: spec_fn(ProbeStep) -> bool, steps: nat) -> ProbeRun
    decreases steps,
{
    if steps == 0 {
        r
    } else {
        probe_run(probe_next(r, works(r.step)), works, (steps - 1) as nat)
    }
}

/// Whatever fails, loading is over after at most ten steps. The probes are then at
/// work exactly where the program, the offsets, every required probe, the wakeup
/// and the events worked; what is optional makes no difference. Otherwise there are
/// none.
pub proof fn law_loading_needs_what_is_required(
    run: ProbeRun,
    works: spec_fn(ProbeStep) -> bool,
)
    requires
        run == (ProbeRun { step: ProbeStep::Load, required_ok: true, fg_ok: false }),
    ensures
        probe_run(run, works, 10).step == (if works(ProbeStep::Load) && works(ProbeStep::Inject)
            && works(ProbeStep::Attach { at: Tracepoint::Fork }) && works(
            ProbeStep::Attach { at: Tracepoint::Exec },
        ) && works(ProbeStep::Attach { at: Tracepoint::Exit }) && works(ProbeStep::MakeWakeup)
            && works(ProbeStep::TakeEvents) {
            ProbeStep::Ready
        } else {
            ProbeStep::Off
        }),
{
    reveal_with_fuel(probe_run, 11);
}

/// Loading goes through its steps in one order: the program, the offsets before any
/// probe, every probe, then the wakeup and the events, and what concerns the foreground
/// last. It goes on to the offsets and to the probes only where the step before worked.
/// All five probes are then tried, whichever of them fails. It goes on from there only
/// where the three required ones are attached, and to the foreground only where the
/// control groups are.
pub proof fn law_loading_keeps_its_order(works: spec_fn(ProbeStep) -> bool, n: nat)
    requires
        n <= 10,
    ensures
        ({
            let run = ProbeRun { step: ProbeStep::Load, required_ok: true, fg_ok: false };
            let step = probe_run(run, works, n).step;
            let fork = works(ProbeStep::Attach { at: Tracepoint::Fork });
            let exec = works(ProbeStep::Attach { at: Tracepoint::Exec });
            let exit = works(ProbeStep::Attach { at: Tracepoint::Exit });
            let cgroup = works(ProbeStep::Attach { at: Tracepoint::Cgroup });
            let begun = works(ProbeStep::Load) && works(ProbeStep::Inject);
            let attached = begun && fork && exec && exit;
            &&& (step == ProbeStep::Load) == (n == 0)
            &&& (step == ProbeStep::Inject) == (n == 1 && works(ProbeStep::Load))
            &&& (step == ProbeStep::Attach { at: Tracepoint::Fork }) == (n == 2 && begun)
            &&& (step == ProbeStep::Attach { at: Tracepoint::Exec }) == (n == 3 && begun)
            &&& (step == ProbeStep::Attach { at: Tracepoint::Exit }) == (n == 4 && begun)
            &&& (step == ProbeStep::Attach { at: Tracepoint::Rename }) == (n == 5 && begun)
            &&& (step == ProbeStep::Attach { at: Tracepoint::Cgroup }) == (n == 6 && begun)
            &&& (step == ProbeStep::MakeWakeup) == (n == 7 && attached)
            &&& (step == ProbeStep::TakeEvents) == (n == 8 && attached && works(
                ProbeStep::MakeWakeup,
            ))
            &&& (step == ProbeStep::InitForeground) == (n == 9 && attached && cgroup && works(
                ProbeStep::MakeWakeup,
            ) && works(ProbeStep::TakeEvents))
        }),
{
    reveal_with_fuel(probe_run, 11);
}

/// The trace file system is looked for in its usual place first, and the description of
/// a tracepoint lies under its category and name.
pub proof fn law_descriptions_lie_under_the_root(
    tracing: bool,
    debug_tracing: bool,
    found: Option<&'static str>,
    root: &str,
    category: &str,
    name: &str,
    path: String,
)
    requires
        call_ensures(tracefs_root, (tracing, debug_tracing), found),
        call_ensures(format_path, (root, category, name), path),
    ensures
        found is Some <==> tracing || debug_tracing,
        tracing ==> found->0@ == "/sys/kernel/tracing"@,
        !tracing && debug_tracing ==> found->0@ == "/sys/kernel/debug/tracing"@,
        path@ == root@ + "/events/"@ + category@ + "/"@ + name@ + "/format"@,
{
}

/// The offsets are those of the fields that the probes read, each from its own
/// tracepoint. They are had exactly where the two needed tracepoints have their fields;
/// what the third lacks is zero.
pub proof fn law_offsets_come_from_their_tracepoints(
    fork: Option<&str>,
    rename: Option<&str>,
    cgroup: Option<&str>,
    out: Option<EbpfOffsets>,
)
    requires
        call_ensures(offsets_from, (fork, rename, cgroup), out),
    ensures
        ({
            let f = fields_in(text::lines_of(fork->0@));
            let r = fields_in(text::lines_of(rename->0@));
            let c = fields_in(text::lines_of(cgroup->0@));
            &&& out is Some <==> fork is Some && rename is Some && f.contains_key("child_pid"@)
                && f.contains_key("child_comm"@) && r.contains_key("newcomm"@)
            &&& out is Some ==> {
                &&& out->0.fork_child_pid == f["child_pid"@]
                &&& out->0.fork_child_comm == f["child_comm"@]
                &&& out->0.rename_newcomm == r["newcomm"@]
                &&& out->0.cg_dst_id == (if cgroup is Some && c.contains_key("dst_id"@) {
                    c["dst_id"@]
                } else {
                    0
                })
                &&& out->0.cg_pid == (if cgroup is Some && c.contains_key("pid"@) {
                    c["pid"@]
                } else {
                    0
                })
            }
        }),
{
    if let Some(s) = fork {
        assert(fork.deep_view() == Some(s@));
    }
    if let Some(s) = rename {
        assert(rename.deep_view() == Some(s@));
    }
    if let Some(s) = cgroup {
        assert(cgroup.deep_view() == Some(s@));
    }
}

} // verus!
