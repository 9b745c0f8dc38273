//! The chunk files of an elementary stream: which entries of a segment
//! directory belong to a stream, the sequence number in a chunk's name, and
//! the order in which the chunks follow the initialization segment.

use vstd::prelude::*;
use crate::error::ExportError;
use crate::listing::{DirEntry, EntryKind, entry_name};
use crate::text::{
    after_last, chars_of, find_last, has_prefix, last_component, last_component_of,
    last_index_of, lemma_last_component_of_join, lemma_last_index_of, parse_unsigned,
    parse_unsigned_range, same_text,
};

verus! {

/// One of the two elementary streams of a clip.
#[derive(Clone, Copy, Debug, PartialEq, Eq, Structural)]
pub enum Stream {
    /// The picture.
    Video,
    /// The sound.
    Audio,
}

/// The name of a stream's initialization segment.
pub open spec fn init_segment_name(stream: Stream) -> Seq<char> {
    match stream {
        Stream::Video => "init-stream0.m4s"@,
        Stream::Audio => "init-stream1.m4s"@,
    }
}

/// What the name of every chunk of a stream starts with.
pub open spec fn chunk_prefix(stream: Stream) -> Seq<char> {
    match stream {
        Stream::Video => "chunk-stream0-"@,
        Stream::Audio => "chunk-stream1-"@,
    }
}

impl Stream {
    /// The name of this stream's initialization segment.
    pub fn init_name(&self) -> (name: &'static str)
        ensures
            name@ == init_segment_name(*self),
    {
        match self {
            Stream::Video => "init-stream0.m4s",
            Stream::Audio => "init-stream1.m4s",
        }
    }

    /// What the name of every chunk of this stream starts with.
    pub fn chunk_prefix(&self) -> (prefix: &'static str)
        ensures
            prefix@ == chunk_prefix(*self),
    {
        match self {
            Stream::Video => "chunk-stream0-",
            Stream::Audio => "chunk-stream1-",
        }
    }
}

/// A file name without its extension: what stands before the last `.`,
/// unless the name has no `.` or only one, at its start.
pub open spec fn stem(name: Seq<char>) -> Seq<char> {
    let dot = last_index_of(name, '.');
    if dot > 0 {
        name.take(dot)
    } else {
        name
    }
}

/// The sequence number of a chunk, given by its path or by its name alone:
/// the unsigned 32-bit decimal number that follows the last `-` in the stem
/// of the file name, which is the last component of the path; and 0 where
/// no such number stands there.
pub open spec fn chunk_key(path: Seq<char>) -> nat {
    match parse_unsigned(after_last(stem(last_component(path)), '-'), u32::MAX as nat) {
        Some(n) => n,
        None => 0,
    }
}

/// The keys never fall from one name to the next.
pub open spec fn sorted_by_key(names: Seq<Seq<char>>) -> bool {
    forall|i: int, j: int|
        0 <= i <= j < names.len() ==> chunk_key(#[trigger] names[i]) <= chunk_key(
            #[trigger] names[j],
        )
}

/// The names with sequence number `key`, in the order in which they stand.
pub open spec fn with_key(names: Seq<Seq<char>>, key: nat) -> Seq<Seq<char>> {
    names.filter(|name: Seq<char>| chunk_key(name) == key)
}

/// `ordered` holds the names of `names` by ascending sequence number, names
/// with the same number in the order they have in `names`.
pub open spec fn is_chunk_order(ordered: Seq<Seq<char>>, names: Seq<Seq<char>>) -> bool {
    &&& sorted_by_key(ordered)
    &&& ordered.to_multiset() == names.to_multiset()
    &&& forall|key: nat| with_key(ordered, key) == with_key(names, key)
}

/// The entry is a regular file whose name is valid Unicode and starts with
/// the stream's chunk prefix.
pub open spec fn is_chunk_of(e: DirEntry, stream: Stream) -> bool {
    e.kind == EntryKind::File && e.unicode && chunk_prefix(stream).is_prefix_of(e.name@)
}

/// The names of a stream's chunks in a listing, in listing order.
pub open spec fn chunk_names(entries: Seq<DirEntry>, stream: Stream) -> Seq<Seq<char>> {
    entries.filter(|e: DirEntry| is_chunk_of(e, stream)).map_values(|e: DirEntry| entry_name(e))
}

/// The entry is a regular file with the name of the stream's
/// initialization segment.
pub open spec fn is_init_of(e: DirEntry, stream: Stream) -> bool {
    e.kind == EntryKind::File && e.unicode && e.name@ == init_segment_name(stream)
}

/// The listing holds the stream's initialization segment.
pub open spec fn has_init(entries: Seq<DirEntry>, stream: Stream) -> bool {
    exists|i: int| 0 <= i < entries.len() && is_init_of(#[trigger] entries[i], stream)
}

/// The listing holds the stream: its initialization segment and at least
/// one chunk.
pub open spec fn stream_present(entries: Seq<DirEntry>, stream: Stream) -> bool {
    has_init(entries, stream) && chunk_names(entries, stream).len() > 0
}

/// The files that make up one elementary stream, in the order in which
/// their bytes follow each other.
#[derive(Clone, Debug)]
pub struct StreamPlan {
    /// The name of the initialization segment.
    pub init: String,
    /// The names of the chunks, by ascending sequence number.
    pub chunks: Vec<String>,
}

/// The files that make up the two streams of a clip.
#[derive(Clone, Debug)]
pub struct ClipPlan {
    /// The picture.
    pub video: StreamPlan,
    /// The sound.
    pub audio: StreamPlan,
}

/// `plan` names the stream's initialization segment and, in their order,
/// the chunks that the listing holds of it.
pub open spec fn is_plan_of(plan: StreamPlan, entries: Seq<DirEntry>, stream: Stream) -> bool {
    &&& plan.init@ == init_segment_name(stream)
    &&& is_chunk_order(plan.chunks.deep_view(), chunk_names(entries, stream))
}

/// The directories before a file name change nothing of its sequence
/// number: a chunk's path has the number of its name.
pub proof fn lemma_chunk_key_of_path(parent: Seq<char>, name: Seq<char>)
    requires
        parent.len() == 0 || parent.last() == '/',
        name.len() > 0,
        forall|i: int| 0 <= i < name.len() ==> name[i] != '/',
    ensures
        chunk_key(parent + name) == chunk_key(name),
{
    let none = Seq::<char>::empty();
    lemma_last_component_of_join(parent, name, none);
    lemma_last_component_of_join(none, name, none);
    assert(parent + name + none =~= parent + name);
    assert(none + name + none =~= name);
}

/// Moving one name towards the front, past names that all have another
/// sequence number, changes no group of names with equal number.
proof fn lemma_move_keeps_groups(names: Seq<Seq<char>>, from: int, to: int, key: nat)
    requires
        0 <= to <= from < names.len(),
        forall|m: int| to <= m < from ==> chunk_key(#[trigger] names[m]) != chunk_key(names[from]),
    ensures
        with_key(names.remove(from).insert(to, names[from]), key) == with_key(names, key),
{
    let pred = |name: Seq<char>| chunk_key(name) == key;
    let a = names.take(to);
    let b = names.subrange(to, from);
    let x = seq![names[from]];
    let c = names.skip(from + 1);
    assert(names =~= ((a + b) + x) + c);
    assert(names.remove(from).insert(to, names[from]) =~= ((a + x) + b) + c);
    Seq::filter_distributes_over_add((a + b) + x, c, pred);
    Seq::filter_distributes_over_add(a + b, x, pred);
    Seq::filter_distributes_over_add(a, b, pred);
    Seq::filter_distributes_over_add((a + x) + b, c, pred);
    Seq::filter_distributes_over_add(a + x, b, pred);
    Seq::filter_distributes_over_add(a, x, pred);
    if chunk_key(names[from]) == key {
        assert(b.all(|name: Seq<char>| !pred(name))) by {
            assert forall|m: int| 0 <= m < b.len() implies !pred(#[trigger] b[m]) by {
                assert(b[m] == names[to + m]);
            }
        }
        b.lemma_all_neg_filter_empty(pred);
        assert(b.filter(pred) =~= Seq::<Seq<char>>::empty());
        assert((a.filter(pred) + b.filter(pred)) + x.filter(pred) =~= (a.filter(pred) + x.filter(
            pred,
        )) + b.filter(pred));
    } else {
        assert(x.all(|name: Seq<char>| !pred(name)));
        x.lemma_all_neg_filter_empty(pred);
        assert(x.filter(pred) =~= Seq::<Seq<char>>::empty());
        assert((a.filter(pred) + b.filter(pred)) + x.filter(pred) =~= (a.filter(pred) + x.filter(
            pred,
        )) + b.filter(pred));
    }
}

/// Two sequences in ascending order of sequence number that hold the same
/// names, and the names of each number in the same order, are equal.
proof fn lemma_same_groups_same_order(a: Seq<Seq<char>>, b: Seq<Seq<char>>)
    requires
        sorted_by_key(a),
        sorted_by_key(b),
        a.to_multiset() == b.to_multiset(),
        forall|key: nat| with_key(a, key) == with_key(b, key),
    ensures
        a == b,
    decreases a.len(),
{
    broadcast use vstd::multiset::group_multiset_axioms;

    vstd::seq_lib::to_multiset_len(a);
    vstd::seq_lib::to_multiset_len(b);
    if a.len() == 0 {
        assert(a =~= b);
    } else {
        let la = a.last();
        let lb = b.last();
        let a0 = a.drop_last();
        let b0 = b.drop_last();
        assert(a.contains(la));
        assert(b.contains(lb));
        vstd::seq_lib::to_multiset_contains(a, la);
        vstd::seq_lib::to_multiset_contains(b, la);
        vstd::seq_lib::to_multiset_contains(a, lb);
        vstd::seq_lib::to_multiset_contains(b, lb);
        assert(b.contains(la));
        assert(a.contains(lb));
        let ja = choose|j: int| 0 <= j < b.len() && b[j] == la;
        let jb = choose|j: int| 0 <= j < a.len() && a[j] == lb;
        assert(chunk_key(b[ja]) <= chunk_key(b[b.len() - 1]));
        assert(chunk_key(a[jb]) <= chunk_key(a[a.len() - 1]));
        let top = chunk_key(la);
        assert(chunk_key(lb) == top);
        assert(a0.push(la) =~= a);
        assert(b0.push(lb) =~= b);
        assert forall|key: nat| with_key(a0, key) == with_key(b0, key) by {
            let pred = |name: Seq<char>| chunk_key(name) == key;
            a0.lemma_filter_push(la, pred);
            b0.lemma_filter_push(lb, pred);
            assert(with_key(a, key) == with_key(b, key));
            if key == top {
                assert(with_key(a0, key).push(la).drop_last() =~= with_key(a0, key));
                assert(with_key(b0, key).push(lb).drop_last() =~= with_key(b0, key));
            }
        }
        assert(la == lb) by {
            let pred = |name: Seq<char>| chunk_key(name) == top;
            a0.lemma_filter_push(la, pred);
            b0.lemma_filter_push(lb, pred);
            assert(with_key(a, top) == with_key(b, top));
            assert(with_key(a0, top).push(la).last() == la);
            assert(with_key(b0, top).push(lb).last() == lb);
        }
        assert(a0.to_multiset() == b0.to_multiset()) by {
            assert(a.remove(a.len() - 1) =~= a0);
            assert(b.remove(b.len() - 1) =~= b0);
            vstd::seq_lib::to_multiset_remove(a, a.len() - 1);
            vstd::seq_lib::to_multiset_remove(b, b.len() - 1);
        }
        assert(sorted_by_key(a0)) by {
            assert forall|i: int, j: int| 0 <= i <= j < a0.len() implies chunk_key(
                #[trigger] a0[i],
            ) <= chunk_key(#[trigger] a0[j]) by {
                assert(a0[i] == a[i] && a0[j] == a[j]);
            }
        }
        assert(sorted_by_key(b0)) by {
            assert forall|i: int, j: int| 0 <= i <= j < b0.len() implies chunk_key(
                #[trigger] b0[i],
            ) <= chunk_key(#[trigger] b0[j]) by {
                assert(b0[i] == b[i] && b0[j] == b[j]);
            }
        }
        lemma_same_groups_same_order(a0, b0);
    }
}

/// The names determine their order: any two sequences that hold the names
/// of `names` by ascending sequence number, names with the same number in
/// the order they have in `names`, are the same sequence.
pub proof fn lemma_chunk_order_is_unique(
    first: Seq<Seq<char>>,
    second: Seq<Seq<char>>,
    names: Seq<Seq<char>>,
)
    requires
        is_chunk_order(first, names),
        is_chunk_order(second, names),
    ensures
        first == second,
{
    lemma_same_groups_same_order(first, second);
}

/// Names that already stand by ascending sequence number are their own
/// order.
pub proof fn lemma_sorted_names_keep_their_order(ordered: Seq<Seq<char>>, names: Seq<Seq<char>>)
    requires
        is_chunk_order(ordered, names),
        sorted_by_key(names),
    ensures
        ordered == names,
{
    lemma_same_groups_same_order(ordered, names);
}

/// The sequence number of a chunk, given by its path or by its name alone.
pub fn chunk_key_of(path: &str) -> (key: u32)
    ensures
        key as nat == chunk_key(path@),
{
    let letters: Vec<char> = chars_of(path);
    let text: Vec<char> = last_component_of(&letters);
    let ghost name = text@;
    let n: usize = text.len();
    assert(text@.take(n as int) =~= text@);
    let end: usize = match find_last(&text, n, '.') {
        Some(dot) => if dot > 0 {
            dot
        } else {
            n
        },
        None => n,
    };
    assert(stem(name) =~= text@.take(end as int));
    let start: usize = match find_last(&text, end, '-') {
        Some(dash) => dash + 1,
        None => 0,
    };
    proof {
        lemma_last_index_of(text@.take(end as int), '-');
        assert(after_last(stem(name), '-') =~= text@.subrange(start as int, end as int));
    }
    match parse_unsigned_range(&text, start, end, 0xffff_ffff) {
        Some(value) => value as u32,
        None => 0,
    }
}

/// Orders chunk files, given by their paths or by their names alone, by
/// ascending sequence number. The
/// numbers are compared as numbers, so that 10 follows 9. Names with the same
/// number, those without a readable number among them (number 0), keep the
/// order in which they were given; no name is lost or added.
pub fn sort_chunks(chunk_files: &mut Vec<String>)
    ensures
        is_chunk_order(final(chunk_files).deep_view(), old(chunk_files).deep_view()),
{
    let ghost given = chunk_files.deep_view();
    let n: usize = chunk_files.len();
    let mut keys: Vec<u32> = Vec::new();
    let mut k: usize = 0;
    while k < n
        invariant
            k <= n,
            n == chunk_files.len(),
            keys.len() == k,
            chunk_files.deep_view() == given,
            forall|m: int| 0 <= m < k ==> keys[m] as nat == chunk_key(#[trigger] given[m]),
        decreases n - k,
    {
        let key: u32 = chunk_key_of(chunk_files[k].as_str());
        keys.push(key);
        k += 1;
    }
    if n < 2 {
        return ;
    }
    let mut i: usize = 1;
    while i < n
        invariant
            1 <= i <= n,
            n == chunk_files.len(),
            n == keys.len(),
            forall|m: int|
                0 <= m < n ==> keys[m] as nat == chunk_key(#[trigger] chunk_files.deep_view()[m]),
            forall|a: int, b: int| 0 <= a <= b < i ==> keys[a] <= keys[b],
            chunk_files.deep_view().to_multiset() == given.to_multiset(),
            forall|key: nat| with_key(chunk_files.deep_view(), key) == with_key(given, key),
        decreases n - i,
    {
        let key: u32 = keys[i];
        let mut j: usize = i;
        while j > 0 && keys[j - 1] > key
            invariant
                j <= i < n,
                n == keys.len(),
                key == keys[i as int],
                forall|m: int| j <= m < i ==> keys[m] > key,
            decreases j,
        {
            j -= 1;
        }
        if j < i {
            let ghost names = chunk_files.deep_view();
            let ghost numbers = keys@;
            let name: String = chunk_files.remove(i);
            chunk_files.insert(j, name);
            let number: u32 = keys.remove(i);
            keys.insert(j, number);
            proof {
                let moved = names.remove(i as int).insert(j as int, names[i as int]);
                assert(chunk_files.deep_view() =~= moved);
                assert(keys@ =~= numbers.remove(i as int).insert(j as int, numbers[i as int]));
                broadcast use vstd::multiset::group_multiset_axioms;
                names.to_multiset_ensures();
                assert(names.contains(names[i as int]));
                vstd::seq_lib::to_multiset_remove(names, i as int);
                vstd::seq_lib::to_multiset_insert(names.remove(i as int), j as int, names[i as int]);
                assert(moved.to_multiset() =~= names.to_multiset());
                assert forall|key: nat| with_key(moved, key) == with_key(given, key) by {
                    lemma_move_keeps_groups(names, i as int, j as int, key);
                }
            }
        }
        i += 1;
    }
}

/// The chunks of a stream in the order in which they follow the
/// initialization segment: the regular files of the segment directory
/// whose names start with the stream's chunk prefix, by ascending sequence
/// number.
pub fn stream_chunks(entries: &Vec<DirEntry>, stream: Stream) -> (out: Vec<String>)
    ensures
        is_chunk_order(out.deep_view(), chunk_names(entries@, stream)),
{
    let mut out: Vec<String> = Vec::new();
    let n: usize = entries.len();
    let mut i: usize = 0;
    assert(entries@.take(0) =~= Seq::<DirEntry>::empty());
    proof {
        reveal(Seq::filter);
    }
    assert(out.deep_view() =~= chunk_names(entries@.take(0), stream));
    while i < n
        invariant
            i <= n,
            n == entries.len(),
            out.deep_view() == chunk_names(entries@.take(i as int), stream),
        decreases n - i,
    {
        let ghost before = out.deep_view();
        let ghost head = entries@.take(i as int);
        let e: &DirEntry = &entries[i];
        proof {
            assert(entries@.take(i + 1) =~= head.push(*e));
            head.lemma_filter_push(*e, |e: DirEntry| is_chunk_of(e, stream));
        }
        if e.kind == EntryKind::File && e.unicode {
            if has_prefix(e.name.as_str(), stream.chunk_prefix()) {
                out.push(e.name.clone());
                assert(out.deep_view() =~= before.push(e.name@));
            }
        }
        assert(out.deep_view() =~= chunk_names(entries@.take(i + 1), stream));
        i += 1;
    }
    assert(entries@.take(n as int) =~= entries@);
    sort_chunks(&mut out);
    out
}

/// Whether the listing of a segment directory holds the stream's
/// initialization segment.
pub fn find_init(entries: &Vec<DirEntry>, stream: Stream) -> (found: bool)
    ensures
        found == has_init(entries@, stream),
{
    let n: usize = entries.len();
    let mut i: usize = 0;
    while i < n
        invariant
            i <= n,
            n == entries.len(),
            forall|j: int| 0 <= j < i ==> !is_init_of(#[trigger] entries@[j], stream),
        decreases n - i,
    {
        let e: &DirEntry = &entries[i];
        if e.kind == EntryKind::File && e.unicode {
            if same_text(e.name.as_str(), stream.init_name()) {
                assert(is_init_of(entries@[i as int], stream));
                return true;
            }
        }
        i += 1;
    }
    false
}

/// Plans the assembly of one stream from the listing of the segment
/// directory. The stream must be there, with its initialization segment and
/// at least one chunk; else the segments count as not found.
pub fn plan_stream(
    entries: &Vec<DirEntry>,
    stream: Stream,
) -> (planned: Result<StreamPlan, ExportError>)
    ensures
        match planned {
            Ok(plan) => stream_present(entries@, stream) && is_plan_of(plan, entries@, stream),
            Err(error) => !stream_present(entries@, stream) && error
                == ExportError::SegmentsNotFound,
        },
{
    if !find_init(entries, stream) {
        return Err(ExportError::SegmentsNotFound);
    }
    let chunks: Vec<String> = stream_chunks(entries, stream);
    proof {
        vstd::seq_lib::to_multiset_len(chunks.deep_view());
        vstd::seq_lib::to_multiset_len(chunk_names(entries@, stream));
    }
    if chunks.len() == 0 {
        return Err(ExportError::SegmentsNotFound);
    }
    Ok(StreamPlan { init: String::from_str(stream.init_name()), chunks })
}

/// Plans the assembly of a clip from the listing of its segment directory.
/// Both streams must be there; where either is not, the segments count as
/// not found and nothing is to be assembled.
pub fn plan_clip(entries: &Vec<DirEntry>) -> (planned: Result<ClipPlan, ExportError>)
    ensures
        match planned {
            Ok(plan) => {
                &&& stream_present(entries@, Stream::Video)
                &&& stream_present(entries@, Stream::Audio)
                &&& is_plan_of(plan.video, entries@, Stream::Video)
                &&& is_plan_of(plan.audio, entries@, Stream::Audio)
            },
            Err(error) => {
                &&& !(stream_present(entries@, Stream::Video) && stream_present(
                    entries@,
                    Stream::Audio,
                ))
                &&& error == ExportError::SegmentsNotFound
            },
        },
{
    let video: StreamPlan = match plan_stream(entries, Stream::Video) {
        Ok(plan) => plan,
        Err(error) => {
            return Err(error);
        },
    };
    let audio: StreamPlan = match plan_stream(entries, Stream::Audio) {
        Ok(plan) => plan,
        Err(error) => {
            return Err(error);
        },
    };
    Ok(ClipPlan { video, audio })
}

} // verus!
