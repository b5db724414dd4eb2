//! The record that is kept beside an unfinished download.

use vstd::prelude::*;

use crate::text::{chars_of, text_after_last};

verus! {

/// What stands behind the name of a file in the name of its record.
pub const RECORD_ENDING: &'static str = ".meta";

/// How far a download has come, and of what.
#[derive(Debug, Clone)]
pub struct DownloadMetadata {
    pub url: String,
    pub etag: Option<String>,
    pub total_size: u64,
    pub downloaded: u64,
    pub timestamp: i64,
    /// Which chunks are finished; empty for a download in one stream.
    pub chunks_completed: Vec<bool>,
}

/// What a record says.
pub struct MetadataView {
    pub url: Seq<char>,
    pub etag: Option<Seq<char>>,
    pub total_size: int,
    pub downloaded: int,
    pub timestamp: int,
    pub chunks_completed: Seq<bool>,
}

impl View for DownloadMetadata {
    type V = MetadataView;

    open spec fn view(&self) -> MetadataView {
        MetadataView {
            url: self.url@,
            etag: crate::text::text_view(self.etag),
            total_size: self.total_size as int,
            downloaded: self.downloaded as int,
            timestamp: self.timestamp as int,
            chunks_completed: self.chunks_completed@,
        }
    }
}

/// A path without what stands at its end and leads nowhere: slashes, and dots
/// that stand alone behind a slash.
pub open spec fn trimmed_path(path: Seq<char>) -> Seq<char>
    decreases path.len(),
{
    let len = path.len() as int;
    if len > 0 && path[len - 1] == '/' {
        trimmed_path(path.take(len - 1))
    } else if len > 1 && path[len - 1] == '.' && path[len - 2] == '/' {
        trimmed_path(path.take(len - 2))
    } else {
        path
    }
}

/// What the last component of a path is called, be it a name or not.
pub open spec fn last_part(path: Seq<char>) -> Seq<char> {
    crate::text::after_last(trimmed_path(path), '/')
}

/// Whether the last component of a path is a name: it has one, and it is neither
/// the directory itself nor the one above.
pub open spec fn has_name(path: Seq<char>) -> bool {
    let part = last_part(path);
    part.len() > 0 && part != seq!['.'] && part != seq!['.', '.']
}

/// What stands in a path before its last component.
pub open spec fn directory_part(path: Seq<char>) -> Seq<char> {
    let trimmed = trimmed_path(path);
    trimmed.take(crate::text::find_back(trimmed, '/', trimmed.len() as int) + 1)
}

/// What follows the last dot in a name, where there is a dot other than at its
/// front.
pub open spec fn extension(name: Seq<char>) -> Option<Seq<char>> {
    let dot = crate::text::find_back(name, '.', name.len() as int);
    if dot > 0 {
        Some(name.subrange(dot + 1, name.len() as int))
    } else {
        None
    }
}

/// The path of the record that belongs to the file at `output`. A path that has
/// no name at its end stays as it is.
pub open spec fn record_path(output: Seq<char>) -> Seq<char> {
    if has_name(output) {
        trimmed_path(output) + RECORD_ENDING@
    } else {
        output
    }
}

/// Whether no chunk is marked as unfinished. A download in one stream has no
/// chunks, so this says nothing about it.
pub open spec fn no_chunk_missing(done: Seq<bool>) -> bool {
    forall|i: int| 0 <= i < done.len() ==> #[trigger] done[i]
}

fn is_name(part: &Vec<char>) -> (named: bool)
    ensures
        named == (part@.len() > 0 && part@ != seq!['.'] && part@ != seq!['.', '.']),
{
    if part.len() == 1 {
        assert(part@[0] == '.' ==> part@ =~= seq!['.']);
        part[0] != '.'
    } else if part.len() == 2 {
        assert(part@[0] == '.' && part@[1] == '.' ==> part@ =~= seq!['.', '.']);
        part[0] != '.' || part[1] != '.'
    } else {
        part.len() > 0
    }
}

impl DownloadMetadata {
    /// The path of the record that belongs to the file at `output`: the path of
    /// the file with `.meta` behind its name. The parts of a path are separated
    /// by slashes.
    pub fn metadata_path(output: &str) -> (path: String)
        ensures
            path@ == record_path(output@),
    {
        let chars: Vec<char> = chars_of(output);
        let mut end: usize = chars.len();
        assert(output@.take(end as int) =~= output@);
        while end > 0 && (chars[end - 1] == '/' || end > 1 && chars[end - 1] == '.' && chars[end - 2]
            == '/')
            invariant
                end <= chars.len(),
                chars@ == output@,
                trimmed_path(output@) == trimmed_path(output@.take(end as int)),
            decreases end,
        {
            let ghost rest = output@.take(end as int);
            assert(rest.take(end - 1) =~= output@.take(end - 1));
            if chars[end - 1] == '/' {
                end -= 1;
            } else {
                assert(rest.take(end - 2) =~= output@.take(end - 2));
                end -= 2;
            }
        }
        let trimmed: &str = output.substring_char(0, end);
        assert(trimmed@ =~= trimmed_path(output@));
        let part: Vec<char> = chars_of(text_after_last(trimmed, '/').as_str());
        if is_name(&part) {
            let mut path: String = trimmed.to_owned();
            path.append(RECORD_ENDING);
            path
        } else {
            output.to_owned()
        }
    }

    /// Whether no chunk is marked as unfinished.
    pub fn all_chunks_completed(&self) -> (all: bool)
        ensures
            all == no_chunk_missing(self@.chunks_completed),
    {
        let mut i: usize = 0;
        while i < self.chunks_completed.len()
            invariant
                i <= self.chunks_completed.len(),
                forall|j: int| 0 <= j < i ==> #[trigger] self.chunks_completed@[j],
            decreases self.chunks_completed.len() - i,
        {
            if !self.chunks_completed[i] {
                assert(!self@.chunks_completed[i as int]);
                return false;
            }
            i += 1;
        }
        true
    }
}

proof fn lemma_find_back_is(s: Seq<char>, c: char, to: int, at: int)
    requires
        0 <= to <= s.len(),
        -1 <= at < to,
        at >= 0 ==> s[at] == c,
        forall|i: int| at < i < to ==> s[i] != c,
    ensures
        crate::text::find_back(s, c, to) == at,
{
    crate::text::lemma_find_back(s, c, to);
    let found = crate::text::find_back(s, c, to);
    if found < at {
        assert(s[at] != c);
    } else if found > at {
        assert(s[found] != c);
    }
}

/// A record lies beside its file, whatever stands at the end of the path behind
/// the name of the file: it is in the same directory, and its name is that of
/// the file with the ending behind it, which is its extension.
pub proof fn records_lie_beside_their_files(output: Seq<char>)
    requires
        has_name(output),
    ensures
        directory_part(record_path(output)) == directory_part(output),
        has_name(record_path(output)),
        last_part(record_path(output)) == last_part(output) + RECORD_ENDING@,
        extension(last_part(record_path(output))) == Some("meta"@),
        record_path(output) == directory_part(output) + last_part(output) + RECORD_ENDING@,
{
    reveal_strlit(".meta");
    reveal_strlit("meta");
    let file = trimmed_path(output);
    let record = record_path(output);
    let len = file.len() as int;
    let slash = crate::text::find_back(file, '/', len);
    crate::text::lemma_find_back(file, '/', len);
    assert(record[len + 4] == 'a');
    assert(trimmed_path(record) == record);
    assert forall|i: int| slash < i < len + 5 implies record[i] != '/' by {
        if i < len {
            assert(record[i] == file[i]);
        } else {
            assert(record[i] == ".meta"@[i - len]);
        }
    }
    assert(slash >= 0 ==> record[slash] == file[slash]);
    lemma_find_back_is(record, '/', len + 5, slash);
    assert(directory_part(record) =~= directory_part(output));
    let name = last_part(record);
    assert(name =~= last_part(output) + ".meta"@);
    assert(name.len() > 5);
    let dot = last_part(output).len() as int;
    assert forall|i: int| dot < i < dot + 5 implies name[i] != '.' by {
        assert(name[i] == ".meta"@[i - dot]);
    }
    assert(name[dot] == ".meta"@[0]);
    lemma_find_back_is(name, '.', dot + 5, dot);
    assert(name.subrange(dot + 1, dot + 5) =~= "meta"@);
    assert(record =~= directory_part(output) + last_part(output) + ".meta"@);
}

/// The name of a record is that of the path that is nothing but the name of the
/// file.
pub proof fn a_name_is_a_path_of_its_own(output: Seq<char>)
    requires
        has_name(output),
    ensures
        has_name(last_part(output)),
        record_path(last_part(output)) == last_part(record_path(output)),
{
    records_lie_beside_their_files(output);
    let file = trimmed_path(output);
    let len = file.len() as int;
    let slash = crate::text::find_back(file, '/', len);
    crate::text::lemma_find_back(file, '/', len);
    let name = last_part(output);
    assert forall|i: int| 0 <= i < name.len() implies name[i] != '/' by {
        assert(name[i] == file[slash + 1 + i]);
    }
    assert(trimmed_path(name) == name);
    lemma_find_back_is(name, '/', name.len() as int, -1);
    assert(last_part(name) =~= name);
}

/// Files with different paths have different records, where slashes and dots at
/// the end make no difference; and no file is its own record.
pub proof fn records_are_not_shared(a: Seq<char>, b: Seq<char>)
    ensures
        record_path(a) == record_path(b) ==> trimmed_path(a) == trimmed_path(b),
        has_name(a) ==> record_path(a) != a && record_path(a) != trimmed_path(a),
{
    reveal_strlit(".meta");
    if has_name(a) {
        records_lie_beside_their_files(a);
        if record_path(a) == a {
            assert(a[a.len() - 1] == ".meta"@[4]);
            assert(trimmed_path(a) == a);
        }
    }
    if has_name(b) {
        records_lie_beside_their_files(b);
    }
    if record_path(a) == record_path(b) && has_name(a) {
        let record = record_path(a);
        assert(trimmed_path(a) =~= record.take(record.len() - 5));
        assert(trimmed_path(b) =~= record.take(record.len() - 5));
    }
}

/// A name in a directory, which may be any that ends in a slash or none, has its
/// record in that directory, under the name with `.meta` behind it. The
/// directory itself and the one above have no name, and so no record of their
/// own.
pub proof fn a_name_gets_an_ending(directory: Seq<char>, name: Seq<char>)
    requires
        directory.len() > 0 ==> directory.last() == '/',
        !name.contains('/'),
    ensures
        name.len() > 0 && name != seq!['.'] && name != seq!['.', '.'] ==> record_path(
            directory + name,
        ) == directory + name + seq!['.', 'm', 'e', 't', 'a'],
        name == seq!['.', '.'] ==> record_path(directory + name) == directory + name,
        record_path(seq!['.']) == seq!['.'],
        record_path(Seq::empty()) == Seq::<char>::empty(),
{
    reveal_strlit(".meta");
    assert(RECORD_ENDING@ =~= seq!['.', 'm', 'e', 't', 'a']);
    let path = directory + name;
    let n = directory.len() as int;
    let len = path.len() as int;
    if name.len() > 0 && name != seq!['.'] {
        assert(path[len - 1] == name[name.len() - 1]);
        assert(name.contains(name[name.len() - 1]));
        if len > 1 && path[len - 1] == '.' && path[len - 2] == '/' {
            if name.len() > 1 {
                assert(path[len - 2] == name[name.len() - 2]);
                assert(name.contains(name[name.len() - 2]));
            }
            assert(name =~= seq!['.']);
        }
        assert(trimmed_path(path) == path);
        assert forall|i: int| n <= i < len implies path[i] != '/' by {
            assert(path[i] == name[i - n]);
            assert(name.contains(name[i - n]));
        }
        lemma_find_back_is(path, '/', len, n - 1);
        assert(last_part(path) =~= name);
    }
    let dot = seq!['.'];
    assert(trimmed_path(dot) == dot);
    lemma_find_back_is(dot, '/', 1, -1);
    assert(last_part(dot) =~= dot);
    assert(trimmed_path(Seq::empty()) =~= Seq::<char>::empty());
    assert(last_part(Seq::empty()) =~= Seq::<char>::empty());
}

/// A slash or a lone dot behind a path makes no difference to its record. A path
/// that has none stays without one.
pub proof fn slashes_behind_a_path_make_no_difference(path: Seq<char>)
    ensures
        record_path(path) != path ==> record_path(path + seq!['/']) == record_path(path)
            && record_path(path + seq!['/', '.']) == record_path(path),
        record_path(path) == path ==> record_path(path + seq!['/']) == path + seq!['/']
            && record_path(path + seq!['/', '.']) == path + seq!['/', '.'],
{
    let slash = path + seq!['/'];
    let dot = path + seq!['/', '.'];
    let len = path.len() as int;
    assert(slash.take(len) =~= path);
    assert(trimmed_path(slash) == trimmed_path(path));
    assert(dot.take(len) =~= path);
    assert(trimmed_path(dot) == trimmed_path(path));
    records_are_not_shared(path, path);
}

/// No chunk is missing if and only if none is left to be fetched.
pub proof fn nothing_is_missing_when_nothing_is_pending(total: int, done: Seq<bool>)
    requires
        done.len() <= usize::MAX,
    ensures
        no_chunk_missing(done) <==> crate::chunks::pending(total, done).len() == 0,
        no_chunk_missing(done) <==> !(exists|i: int| 0 <= i < done.len() && !(#[trigger] done[i])),
{
    crate::chunks::only_unfinished_chunks_are_pending(total, done);
    let pending = crate::chunks::pending(total, done);
    if pending.len() > 0 {
        let c = pending[0];
        assert(!done[c.id as int]);
    }
    if pending.len() == 0 {
        assert forall|i: int| 0 <= i < done.len() implies #[trigger] done[i] by {
            if !done[i] {
                assert(pending.contains(crate::chunks::chunk(total, done.len() as int, i)));
            }
        }
    }
}

/// A record shows what it holds.
pub proof fn records_show_what_they_hold(meta: DownloadMetadata)
    ensures
        meta@.url == meta.url@,
        meta.etag matches Some(tag) ==> meta@.etag == Some(tag@),
        meta.etag is None ==> meta@.etag is None,
        meta@.total_size == meta.total_size,
        meta@.downloaded == meta.downloaded,
        meta@.timestamp == meta.timestamp,
        meta@.chunks_completed == meta.chunks_completed@,
{
}

} // verus!
