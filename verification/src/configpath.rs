use vstd::prelude::*;

use crate::merger::{find_key, DefaultConfigMerger};
use crate::value::{lemma_view_entries_index, view_entries, SpecValue, ConfigValue};

verus! {

/// The views of a list of segment strings.
pub open spec fn segments_view(v: Seq<String>) -> Seq<Seq<char>> {
    Seq::new(v.len(), |i: int| v[i]@)
}

/// Splitting a text on the dot separator: one segment per stretch between
/// dots; the empty text splits into one empty segment.
pub open spec fn split_dots(s: Seq<char>) -> Seq<Seq<char>>
    decreases s.len(),
{
    if s.len() == 0 {
        seq![Seq::<char>::empty()]
    } else if s[0] == '.' {
        seq![Seq::<char>::empty()] + split_dots(s.subrange(1, s.len() as int))
    } else {
        let rest = split_dots(s.subrange(1, s.len() as int));
        seq![seq![s[0]] + rest[0]] + rest.subrange(1, rest.len() as int)
    }
}

/// Joining segments with the dot separator.
pub open spec fn join_dots(segs: Seq<Seq<char>>) -> Seq<char>
    decreases segs.len(),
{
    if segs.len() == 0 {
        Seq::empty()
    } else if segs.len() == 1 {
        segs[0]
    } else {
        segs[0] + seq!['.'] + join_dots(segs.subrange(1, segs.len() as int))
    }
}

/// A split always yields at least one segment.
proof fn lemma_split_dots_len(s: Seq<char>)
    ensures
        split_dots(s).len() >= 1,
    decreases s.len(),
{
    if s.len() > 0 {
        lemma_split_dots_len(s.subrange(1, s.len() as int));
    }
}

/// Splitting a text on dots and joining the segments with dots gives the
/// text back, for every text.
pub proof fn lemma_split_join_round_trip(s: Seq<char>)
    ensures
        join_dots(split_dots(s)) == s,
    decreases s.len(),
{
    if s.len() == 0 {
        assert(join_dots(split_dots(s)) =~~= s);
    } else {
        let tail = s.subrange(1, s.len() as int);
        lemma_split_join_round_trip(tail);
        lemma_split_dots_len(tail);
        let rest = split_dots(tail);
        if s[0] == '.' {
            let whole = seq![Seq::<char>::empty()] + rest;
            assert(split_dots(s) == whole);
            assert(whole.subrange(1, whole.len() as int) =~~= rest);
            assert(join_dots(whole) =~~= s);
        } else {
            let whole = seq![seq![s[0]] + rest[0]] + rest.subrange(1, rest.len() as int);
            assert(split_dots(s) == whole);
            if rest.len() == 1 {
                assert(join_dots(rest) == rest[0]);
                assert(join_dots(whole) == seq![s[0]] + rest[0]);
                assert(join_dots(whole) =~~= s);
            } else {
                assert(whole.subrange(1, whole.len() as int) =~~= rest.subrange(
                    1,
                    rest.len() as int,
                ));
                assert(join_dots(whole) == (seq![s[0]] + rest[0]) + seq!['.'] + join_dots(
                    rest.subrange(1, rest.len() as int),
                ));
                assert(join_dots(rest) == rest[0] + seq!['.'] + join_dots(
                    rest.subrange(1, rest.len() as int),
                ));
                assert(join_dots(whole) =~~= seq![s[0]] + join_dots(rest));
                assert(seq![s[0]] + join_dots(rest) =~~= s);
            }
        }
    }
}

/// How a split advances over a dotless stretch: with no dot before `k`, the
/// first segment runs to the dot at `k` (or to the end of the text).
proof fn lemma_split_dots_step(t: Seq<char>, k: int)
    requires
        0 <= k <= t.len(),
        forall|j: int| 0 <= j < k ==> t[j] != '.',
    ensures
        k < t.len() && t[k] == '.' ==> split_dots(t) == seq![t.subrange(0, k)] + split_dots(
            t.subrange(k + 1, t.len() as int),
        ),
        k == t.len() ==> split_dots(t) == seq![t],
    decreases k,
{
    if k == 0 {
        if 0 < t.len() && t[0] == '.' {
            assert(t.subrange(0, 0) =~~= Seq::<char>::empty());
            assert(split_dots(t) == seq![Seq::<char>::empty()] + split_dots(
                t.subrange(1, t.len() as int),
            ));
        }
        if k == t.len() {
            assert(split_dots(t) =~~= seq![t]);
        }
    } else {
        let tail = t.subrange(1, t.len() as int);
        lemma_split_dots_step(tail, k - 1);
        lemma_split_dots_len(tail);
        let rest = split_dots(tail);
        assert(t[0] != '.');
        let whole = seq![seq![t[0]] + rest[0]] + rest.subrange(1, rest.len() as int);
        assert(split_dots(t) == whole);
        if k < t.len() && t[k] == '.' {
            assert(tail[k - 1] == '.');
            assert(rest == seq![tail.subrange(0, k - 1)] + split_dots(
                tail.subrange(k, tail.len() as int),
            ));
            assert(rest[0] =~~= tail.subrange(0, k - 1));
            assert(seq![t[0]] + rest[0] =~~= t.subrange(0, k));
            assert(tail.subrange(k, tail.len() as int) =~~= t.subrange(k + 1, t.len() as int));
            assert(whole.subrange(1, whole.len() as int) =~~= split_dots(
                t.subrange(k + 1, t.len() as int),
            ));
            assert(whole =~~= seq![t.subrange(0, k)] + split_dots(
                t.subrange(k + 1, t.len() as int),
            ));
        }
        if k == t.len() {
            assert(rest == seq![tail]);
            assert(seq![t[0]] + tail =~~= t);
            assert(whole =~~= seq![t]);
        }
    }
}

/// Splits a text into its dot-separated segments.
pub fn split_on_dots(s: &str) -> (segs: Vec<String>)
    ensures
        segments_view(segs@) == split_dots(s@),
{
    let n = s.unicode_len();
    let mut segs: Vec<String> = Vec::new();
    let mut start: usize = 0;
    let mut i: usize = 0;
    proof {
        assert(s@.subrange(0, n as int) =~~= s@);
        assert(segments_view(segs@) + split_dots(s@) =~~= split_dots(s@));
    }
    while i < n
        invariant
            n == s@.len(),
            start <= i <= n,
            forall|j: int| start <= j < i ==> s@[j] != '.',
            split_dots(s@) == segments_view(segs@) + split_dots(s@.subrange(start as int, n as int)),
        decreases n - i,
    {
        if s.get_char(i) == '.' {
            let seg = s.substring_char(start, i).to_owned();
            segs.push(seg);
            proof {
                let t = s@.subrange(start as int, n as int);
                lemma_split_dots_step(t, i - start);
                assert(t.subrange(0, i - start) =~~= s@.subrange(start as int, i as int));
                assert(t.subrange(i - start + 1, t.len() as int) =~~= s@.subrange(
                    i + 1,
                    n as int,
                ));
                assert(segments_view(segs@) =~~= segments_view(segs@.subrange(0, segs@.len() - 1))
                    + seq![s@.subrange(start as int, i as int)]);
                assert(segments_view(segs@.subrange(0, segs@.len() - 1)) =~~= segments_view(
                    segs@,
                ).subrange(0, segs@.len() - 1));
                assert(split_dots(s@) =~~= segments_view(segs@) + split_dots(
                    s@.subrange(i + 1, n as int),
                ));
            }
            start = i + 1;
        }
        i = i + 1;
    }
    let last = s.substring_char(start, n).to_owned();
    segs.push(last);
    proof {
        let t = s@.subrange(start as int, n as int);
        lemma_split_dots_step(t, n - start);
        assert(segments_view(segs@) =~~= segments_view(segs@.subrange(0, segs@.len() - 1)) + seq![
            t,
        ]);
        assert(segments_view(segs@.subrange(0, segs@.len() - 1)) =~~= segments_view(segs@).subrange(
            0,
            segs@.len() - 1,
        ));
        assert(split_dots(s@) =~~= segments_view(segs@));
    }
    segs
}

/// Appending one more segment to a join appends a dot and the segment,
/// unless the join was empty so far.
proof fn lemma_join_push(segs: Seq<Seq<char>>, x: Seq<char>)
    ensures
        segs.len() == 0 ==> join_dots(segs.push(x)) == x,
        segs.len() > 0 ==> join_dots(segs.push(x)) == join_dots(segs) + seq!['.'] + x,
    decreases segs.len(),
{
    let whole = segs.push(x);
    if segs.len() == 0 {
        assert(whole.len() == 1);
        assert(join_dots(whole) == whole[0]);
    } else {
        let tail = segs.subrange(1, segs.len() as int);
        lemma_join_push(tail, x);
        assert(whole.subrange(1, whole.len() as int) =~~= tail.push(x));
        assert(join_dots(whole) == whole[0] + seq!['.'] + join_dots(tail.push(x)));
        if tail.len() == 0 {
            assert(join_dots(whole) =~~= join_dots(segs) + seq!['.'] + x);
        } else {
            assert(join_dots(segs) == segs[0] + seq!['.'] + join_dots(tail));
            assert(join_dots(whole) =~~= join_dots(segs) + seq!['.'] + x);
        }
    }
}

/// Joins segments into the dotted text form.
pub fn join_with_dots(segs: &Vec<String>) -> (out: String)
    ensures
        out@ == join_dots(segments_view(segs@)),
{
    let mut out = String::new();
    for i in 0..segs.len()
        invariant
            i == 0 ==> out@ =~~= Seq::<char>::empty(),
            i > 0 ==> out@ == join_dots(segments_view(segs@).subrange(0, i as int)),
    {
        if i > 0 {
            out.append(".");
            proof {
                reveal_strlit(".");
                assert("."@ =~~= seq!['.']);
            }
        }
        out.append(segs[i].as_str());
        proof {
            let sv = segments_view(segs@);
            lemma_join_push(sv.subrange(0, i as int), sv[i as int]);
            assert(sv.subrange(0, i as int).push(sv[i as int]) =~~= sv.subrange(0, i + 1));
        }
    }
    proof {
        assert(segments_view(segs@).subrange(0, segs@.len() as int) =~~= segments_view(segs@));
        if segs@.len() == 0 {
            assert(out@ =~~= join_dots(segments_view(segs@)));
        }
    }
    out
}

/// A dotted lookup path: an ordered list of segment strings. Splitting the
/// text form on dots and joining the segments with dots are inverse.
#[derive(Debug, Clone, PartialEq)]
pub struct ConfigPath {
    pub segments: Vec<String>,
}

impl View for ConfigPath {
    type V = Seq<Seq<char>>;

    open spec fn view(&self) -> Seq<Seq<char>> {
        segments_view(self.segments@)
    }
}

impl ConfigPath {
    /// The dotted text form of the path.
    pub fn to_string(&self) -> (s: String)
        ensures
            s@ == join_dots(self@),
    {
        join_with_dots(&self.segments)
    }
}

/// Anything with a text form can be read as a path, segment by segment.
pub trait SegmentedPath {
    /// The text that the segments are read from.
    spec fn path_text(&self) -> Seq<char>;

    /// The dot-separated segments of the text form.
    fn get_segments(&self) -> (segs: Vec<String>)
        ensures
            segments_view(segs@) == split_dots(self.path_text()),
    ;
}

impl SegmentedPath for String {
    open spec fn path_text(&self) -> Seq<char> {
        self@
    }

    fn get_segments(&self) -> (segs: Vec<String>)
        ensures
            segments_view(segs@) == split_dots(self@),
    {
        split_on_dots(self.as_str())
    }
}

impl From<String> for ConfigPath {
    fn from(s: String) -> (p: ConfigPath)
        ensures
            p@ == split_dots(s@),
    {
        ConfigPath { segments: split_on_dots(s.as_str()) }
    }
}

impl vstd::std_specs::convert::FromSpecImpl<String> for ConfigPath {
    open spec fn obeys_from_spec() -> bool {
        false
    }

    open spec fn from_spec(s: String) -> ConfigPath {
        arbitrary()
    }
}

impl<'a> From<&'a str> for ConfigPath {
    fn from(s: &'a str) -> (p: ConfigPath)
        ensures
            p@ == split_dots(s@),
    {
        ConfigPath { segments: split_on_dots(s) }
    }
}

impl<'a> vstd::std_specs::convert::FromSpecImpl<&'a str> for ConfigPath {
    open spec fn obeys_from_spec() -> bool {
        false
    }

    open spec fn from_spec(s: &'a str) -> ConfigPath {
        arbitrary()
    }
}

impl From<Vec<String>> for ConfigPath {
    fn from(v: Vec<String>) -> (p: ConfigPath)
        ensures
            p@ == segments_view(v@),
    {
        ConfigPath { segments: v }
    }
}

impl vstd::std_specs::convert::FromSpecImpl<Vec<String>> for ConfigPath {
    open spec fn obeys_from_spec() -> bool {
        true
    }

    open spec fn from_spec(v: Vec<String>) -> ConfigPath {
        ConfigPath { segments: v }
    }
}

impl<'a> From<Vec<&'a str>> for ConfigPath {
    fn from(v: Vec<&'a str>) -> (p: ConfigPath)
        ensures
            p@.len() == v@.len(),
            forall|i: int| 0 <= i < v@.len() ==> p@[i] == (#[trigger] v@[i])@,
    {
        let mut segments: Vec<String> = Vec::new();
        for i in 0..v.len()
            invariant
                segments@.len() == i,
                forall|j: int| 0 <= j < i ==> (#[trigger] segments@[j])@ == v@[j]@,
        {
            segments.push(v[i].to_owned());
        }
        ConfigPath { segments }
    }
}

impl<'a> vstd::std_specs::convert::FromSpecImpl<Vec<&'a str>> for ConfigPath {
    open spec fn obeys_from_spec() -> bool {
        false
    }

    open spec fn from_spec(v: Vec<&'a str>) -> ConfigPath {
        arbitrary()
    }
}

/// Descending a tree along the remaining segments: no segments left answers
/// the current sub-tree; a non-table met while segments remain answers
/// nothing; a segment that matches no key of the current table stops the
/// descent and answers the sub-tree reached so far.
pub open spec fn spec_descend(cur: SpecValue, segs: Seq<Seq<char>>) -> Option<SpecValue>
    decreases segs.len(),
{
    if segs.len() == 0 {
        Some(cur)
    } else {
        match cur {
            SpecValue::Table(entries) => {
                let at = find_key(entries, SpecValue::Text(segs[0]));
                if at == -1 {
                    Some(cur)
                } else {
                    spec_descend(entries[at].1, segs.subrange(1, segs.len() as int))
                }
            },
            _ => None,
        }
    }
}

/// Resolving a path against a tree: the root must be a table, then the
/// segments are walked as `spec_descend` says.
pub open spec fn spec_resolve(root: SpecValue, segs: Seq<Seq<char>>) -> Option<SpecValue> {
    if root is Table {
        spec_descend(root, segs)
    } else {
        None
    }
}

/// The path resolver: walks a value tree along a dotted path.
pub struct DefaultPathResolver;

impl DefaultPathResolver {
    fn find_internal<'a>(cur: &'a ConfigValue, segments: &Vec<String>, from: usize) -> (r: Option<
        &'a ConfigValue,
    >)
        requires
            from <= segments@.len(),
        ensures
            match r {
                Some(v) => spec_descend(
                    cur@,
                    segments_view(segments@).subrange(from as int, segments@.len() as int),
                ) == Some(v@),
                None => spec_descend(
                    cur@,
                    segments_view(segments@).subrange(from as int, segments@.len() as int),
                ) is None,
            },
        decreases segments@.len() - from,
    {
        let ghost segs = segments_view(segments@).subrange(from as int, segments@.len() as int);
        if from == segments.len() {
            return Some(cur);
        }
        match cur {
            ConfigValue::Table(es) => {
                let key = ConfigValue::Text(segments[from].clone());
                let found = DefaultConfigMerger::find_entry(es, &key);
                proof {
                    lemma_view_entries_index(es@);
                    assert(segs[0] == segments@[from as int]@);
                    assert(key@ == SpecValue::Text(segs[0]));
                    assert(cur@ == SpecValue::Table(view_entries(es@)));
                }
                match found {
                    Some(i) => {
                        proof {
                            assert(find_key(view_entries(es@), SpecValue::Text(segs[0]))
                                == i as int);
                            assert(view_entries(es@)[i as int] == (
                                crate::value::value_view(es@[i as int].0),
                                crate::value::value_view(es@[i as int].1),
                            ));
                        }
                        let r = Self::find_internal(&es[i].1, segments, from + 1);
                        proof {
                            assert(segs.subrange(1, segs.len() as int) =~~= segments_view(
                                segments@,
                            ).subrange(from + 1, segments@.len() as int));
                            assert(spec_descend(cur@, segs) == spec_descend(
                                crate::value::value_view(es@[i as int].1),
                                segs.subrange(1, segs.len() as int),
                            ));
                        }
                        r
                    },
                    None => Some(cur),
                }
            },
            _ => None,
        }
    }

    /// Resolves a path against a tree, answering a reference into it.
    pub fn find<'a>(value: &'a ConfigValue, path: ConfigPath) -> (r: Option<&'a ConfigValue>)
        ensures
            match r {
                Some(v) => spec_resolve(value@, path@) == Some(v@),
                None => spec_resolve(value@, path@) is None,
            },
    {
        match value {
            ConfigValue::Table(_) => {
                let r = Self::find_internal(value, &path.segments, 0);
                proof {
                    assert(path@.subrange(0, path@.len() as int) =~~= path@);
                }
                r
            },
            _ => None,
        }
    }
}

} // verus!

