//! Decisions of the card-file watcher: which changed paths are card files and
//! what a change means for the local store.
use vstd::prelude::*;

verus! {

/// The part of a path after its last `'/'`.
pub open spec fn file_name_of(s: Seq<char>) -> Seq<char>
    decreases s.len(),
{
    if s.len() == 0 || s.last() == '/' {
        Seq::empty()
    } else {
        file_name_of(s.drop_last()).push(s.last())
    }
}

/// Whether a file name has the extension `md`: it ends in `.md` and the dot
/// is not its first character.
pub open spec fn has_md_extension(name: Seq<char>) -> bool {
    name.len() >= 4 && name[name.len() - 3] == '.' && name[name.len() - 2] == 'm' && name[name.len()
        - 1] == 'd'
}

/// Index where the file name of `s` starts.
fn file_name_start(s: &[char]) -> (r: usize)
    ensures
        r <= s@.len(),
        s@.subrange(r as int, s@.len() as int) == file_name_of(s@),
{
    let mut n = s.len();
    assert(s@.subrange(n as int, n as int) =~= Seq::<char>::empty());
    assert(s@.take(n as int) =~= s@);
    assert(file_name_of(s@) + Seq::<char>::empty() =~= file_name_of(s@));
    while n > 0 && s[n - 1] != '/'
        invariant
            0 <= n <= s@.len(),
            file_name_of(s@) == file_name_of(s@.take(n as int)) + s@.subrange(n as int, s@.len() as int),
        decreases n,
    {
        let ghost t = s@.take(n as int);
        assert(t.drop_last() =~= s@.take(n - 1));
        assert(file_name_of(t) == file_name_of(s@.take(n - 1)).push(s@[n - 1]));
        assert(file_name_of(s@.take(n - 1)).push(s@[n - 1]) + s@.subrange(n as int, s@.len() as int)
            =~= file_name_of(s@.take(n - 1)) + s@.subrange(n - 1, s@.len() as int));
        n -= 1;
    }
    assert(s@.take(s@.len() as int) =~= s@);
    if n > 0 {
        assert(s@.take(n as int).last() == '/');
    }
    assert(file_name_of(s@.take(n as int)) == Seq::<char>::empty());
    assert(Seq::<char>::empty() + s@.subrange(n as int, s@.len() as int) =~= s@.subrange(n as int, s@.len() as int));
    n
}

/// Whether a changed path is a card file (its name ends in `.md`).
pub fn is_card_file(path: &str) -> (r: bool)
    ensures
        r == has_md_extension(file_name_of(path@)),
{
    let c = crate::text::to_chars(path);
    let start = file_name_start(c.as_slice());
    let len = c.len() - start;
    let ghost name = c@.subrange(start as int, c@.len() as int);
    if len < 4 {
        return false;
    }
    let n = c.len();
    assert(name[name.len() - 3] == c@[n - 3]);
    assert(name[name.len() - 2] == c@[n - 2]);
    assert(name[name.len() - 1] == c@[n - 1]);
    c[n - 3] == '.' && c[n - 2] == 'm' && c[n - 1] == 'd'
}

/// The pieces of a path between its `'/'` separators, empty ones left out.
pub open spec fn path_segments(s: Seq<char>) -> Seq<Seq<char>>
    decreases s.len(),
{
    if s.len() == 0 {
        Seq::empty()
    } else {
        let w = path_segments(s.drop_last());
        let c = s.last();
        if c == '/' {
            w
        } else if s.len() >= 2 && s[s.len() - 2] != '/' {
            w.update(w.len() - 1, w.last().push(c))
        } else {
            w.push(seq![c])
        }
    }
}

/// The segments without the `.` ones: the path's components below its root.
pub open spec fn named_parts(segs: Seq<Seq<char>>) -> Seq<Seq<char>>
    decreases segs.len(),
{
    if segs.len() == 0 {
        Seq::empty()
    } else {
        let pre = named_parts(segs.drop_last());
        if segs.last() == seq!['.'] {
            pre
        } else {
            pre.push(segs.last())
        }
    }
}

/// The name of the directory that holds the file at `path`, as
/// `Path::parent` then `file_name` give it: the next-to-last component, or
/// nothing when there is none or it is `..`.
pub open spec fn parent_name(path: Seq<char>) -> Seq<char> {
    let p = named_parts(path_segments(path));
    if p.len() >= 2 && p[p.len() - 2] != seq!['.', '.'] {
        p[p.len() - 2]
    } else {
        Seq::empty()
    }
}

proof fn lemma_segments_nonempty(s: Seq<char>)
    requires
        s.len() > 0,
        s.last() != '/',
    ensures
        path_segments(s).len() >= 1,
    decreases s.len(),
{
    if s.len() >= 2 && s[s.len() - 2] != '/' {
        assert(s.drop_last().last() == s[s.len() - 2]);
        lemma_segments_nonempty(s.drop_last());
    }
}

fn split_segments(s: &[char]) -> (r: Vec<Vec<char>>)
    ensures
        crate::text::views(r@) == path_segments(s@),
{
    let mut segs: Vec<Vec<char>> = Vec::new();
    let mut i: usize = 0;
    assert(crate::text::views(segs@) =~= path_segments(s@.take(0)));
    while i < s.len()
        invariant
            0 <= i <= s@.len(),
            crate::text::views(segs@) == path_segments(s@.take(i as int)),
        decreases s@.len() - i,
    {
        let c = s[i];
        let ghost pre = s@.take(i as int);
        assert(s@.take(i + 1).drop_last() =~= pre);
        if c == '/' {
        } else if i >= 1 && s[i - 1] != '/' {
            proof {
                lemma_segments_nonempty(pre);
            }
            let ghost before = segs@;
            let mut last = segs.pop().unwrap();
            last.push(c);
            segs.push(last);
            assert(crate::text::views(segs@) =~= crate::text::views(before).update(
                crate::text::views(before).len() - 1,
                crate::text::views(before).last().push(c),
            ));
        } else {
            let ghost before = segs@;
            let mut w: Vec<char> = Vec::new();
            w.push(c);
            segs.push(w);
            assert(crate::text::views(segs@) =~= crate::text::views(before).push(seq![c]));
        }
        i += 1;
    }
    assert(s@.take(s@.len() as int) =~= s@);
    segs
}

/// The name of the directory that holds a changed card file, which names its
/// deck in the local store.
pub fn watched_deck_name(path: &str) -> (r: String)
    ensures
        r@ == parent_name(path@),
{
    let c = crate::text::to_chars(path);
    let segs = split_segments(c.as_slice());
    let ghost sv = crate::text::views(segs@);
    let dot = ['.'];
    let dotdot = ['.', '.'];
    assert(dot@ =~= seq!['.']);
    assert(dotdot@ =~= seq!['.', '.']);
    let mut named: Vec<&Vec<char>> = Vec::new();
    let mut k: usize = 0;
    while k < segs.len()
        invariant
            0 <= k <= segs@.len(),
            sv == crate::text::views(segs@),
            dot@ == seq!['.'],
            named@.map_values(|x: &Vec<char>| x@) == named_parts(sv.take(k as int)),
        decreases segs@.len() - k,
    {
        assert(sv.take(k + 1).drop_last() =~= sv.take(k as int));
        assert(sv.take(k + 1).last() == segs@[k as int]@);
        let ghost before = named@;
        if !crate::text::chars_eq(segs[k].as_slice(), &dot) {
            named.push(&segs[k]);
            assert(named@.map_values(|x: &Vec<char>| x@) =~= before.map_values(|x: &Vec<char>| x@).push(
                segs@[k as int]@,
            ));
        }
        k += 1;
    }
    assert(sv.take(sv.len() as int) =~= sv);
    let ghost parts = named@.map_values(|x: &Vec<char>| x@);
    let n = named.len();
    if n >= 2 {
        assert(parts[n - 2] == named@[n - 2]@);
        if !crate::text::chars_eq(named[n - 2].as_slice(), &dotdot) {
            return crate::text::from_chars(named[n - 2].as_slice());
        }
    }
    crate::text::from_chars(&[])
}

/// The kinds of change the watcher reacts to.
#[derive(Debug, Clone, Copy, PartialEq, Eq, Structural)]
pub enum FileChange {
    Created,
    Modified,
    Renamed,
    Deleted,
}

/// What the local store does about a changed card file.
#[derive(Debug, Clone, Copy, PartialEq, Eq, Structural)]
pub enum StoreUpdate {
    /// Parse the file and import its cards.
    Import,
    /// Soft-delete the cards that came from the file.
    SoftDelete,
    /// Nothing; only the change is reported.
    Nothing,
}

/// The store update for a change: a created or modified file is imported, a
/// deleted one has its cards soft-deleted, a rename changes nothing.
pub fn store_update_for(change: FileChange) -> (r: StoreUpdate)
    ensures
        r == match change {
            FileChange::Created | FileChange::Modified => StoreUpdate::Import,
            FileChange::Deleted => StoreUpdate::SoftDelete,
            FileChange::Renamed => StoreUpdate::Nothing,
        },
{
    match change {
        FileChange::Created | FileChange::Modified => StoreUpdate::Import,
        FileChange::Deleted => StoreUpdate::SoftDelete,
        FileChange::Renamed => StoreUpdate::Nothing,
    }
}

/// The name the change is reported under.
pub fn change_kind_name(change: FileChange) -> (r: &'static str)
    ensures
        r@ == match change {
            FileChange::Created => "created"@,
            FileChange::Modified => "modified"@,
            FileChange::Renamed => "renamed"@,
            FileChange::Deleted => "deleted"@,
        },
{
    match change {
        FileChange::Created => "created",
        FileChange::Modified => "modified",
        FileChange::Renamed => "renamed",
        FileChange::Deleted => "deleted",
    }
}

} // verus!
