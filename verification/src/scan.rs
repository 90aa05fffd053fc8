//! Finding the pictures of a folder: which entries count as pictures, and the
//! walk through a folder and all its subfolders.
use vstd::prelude::*;
use crate::text::{views, split_seq, split_str};

verus! {

/// The extensions of the files taken as pictures.
pub open spec fn picture_exts() -> Seq<Seq<char>> {
    seq!["png"@, "PNG"@, "jpg"@, "JPG"@, "jpeg"@, "JPEG"@, "gif"@, "GIF"@]
}

/// A path names a picture when what follows its last dot (the whole path if it
/// has no dot) is one of the picture extensions.
pub open spec fn is_picture_name(path: Seq<char>) -> bool {
    picture_exts().contains(split_seq(path, seq!['.']).last())
}

/// Whether a path names a picture (see `is_picture_name`).
pub fn is_picture_path(path: &str) -> (r: bool)
    ensures
        r == is_picture_name(path@),
{
    proof {
        reveal_strlit(".");
    }
    let pieces = split_str(path, ".");
    let ghost ps = split_seq(path@, seq!['.']);
    assert("."@ =~= seq!['.']);
    assert(views(pieces@) == ps);
    let last = pieces[pieces.len() - 1].as_str();
    assert(last@ == ps.last());
    let exts = ["png", "PNG", "jpg", "JPG", "jpeg", "JPEG", "gif", "GIF"];
    proof {
        reveal_strlit("png");
        reveal_strlit("PNG");
        reveal_strlit("jpg");
        reveal_strlit("JPG");
        reveal_strlit("jpeg");
        reveal_strlit("JPEG");
        reveal_strlit("gif");
        reveal_strlit("GIF");
    }
    let mut k: usize = 0;
    while k < 8
        invariant
            k <= 8,
            exts@ == seq!["png", "PNG", "jpg", "JPG", "jpeg", "JPEG", "gif", "GIF"],
            forall|j: int| 0 <= j < k ==> exts@[j]@ != last@,
            ps == split_seq(path@, seq!['.']),
            ps.len() >= 1,
            last@ == ps.last(),
        decreases 8 - k,
    {
        if crate::text::str_eq(exts[k], last) {
            assert(picture_exts()[k as int] == exts@[k as int]@);
            assert(picture_exts()[k as int] == last@);
            assert(picture_exts().contains(last@));
            return true;
        }
        k = k + 1;
    }
    assert forall|j: int| 0 <= j < 8 implies picture_exts()[j] != last@ by {
        assert(picture_exts()[j] == exts@[j]@);
    }
    false
}

/// A path ending in a dot and an extension (that holds no dot) names a picture
/// exactly when the extension is `png`, `PNG`, `jpg`, `JPG`, `jpeg`, `JPEG`,
/// `gif` or `GIF`.
pub proof fn law_picture_extensions(s: Seq<char>, ext: Seq<char>)
    requires
        !ext.contains('.'),
    ensures
        is_picture_name(s + seq!['.'] + ext) <==> (ext == "png"@ || ext == "PNG"@ || ext == "jpg"@
            || ext == "JPG"@ || ext == "jpeg"@ || ext == "JPEG"@ || ext == "gif"@ || ext == "GIF"@),
{
    crate::text::law_split_last_piece(s, '.', ext);
    let exts = picture_exts();
    assert(exts[0] == "png"@);
    assert(exts[1] == "PNG"@);
    assert(exts[2] == "jpg"@);
    assert(exts[3] == "JPG"@);
    assert(exts[4] == "jpeg"@);
    assert(exts[5] == "JPEG"@);
    assert(exts[6] == "gif"@);
    assert(exts[7] == "GIF"@);
    if exts.contains(ext) {
        let i = choose|i: int| 0 <= i < exts.len() && exts[i] == ext;
        assert(0 <= i < 8);
    }
}

/// A path with no dot names a picture exactly when the whole path is one of
/// the extensions.
pub proof fn law_undotted_path(path: Seq<char>)
    requires
        !path.contains('.'),
    ensures
        is_picture_name(path) <==> (path == "png"@ || path == "PNG"@ || path == "jpg"@
            || path == "JPG"@ || path == "jpeg"@ || path == "JPEG"@ || path == "gif"@
            || path == "GIF"@),
{
    let pat = seq!['.'];
    assert forall|j: int| 0 <= j < path.len() implies path[j] != pat[0] by {
        if path[j] == pat[0] {
            assert(path.contains('.'));
        }
    }
    crate::text::lemma_split_whole(path, pat);
    let exts = picture_exts();
    if exts.contains(path) {
        let i = choose|i: int| 0 <= i < exts.len() && exts[i] == path;
        assert(0 <= i < 8);
    }
}

/// An entry of a folder, as the folder listing gave it.
pub struct DirEntryInfo {
    pub path: String,
    pub is_dir: bool,
    pub is_file: bool,
}

/// The pictures and the subfolders found in one folder.
pub struct DirListing {
    pub files: Vec<String>,
    pub dirs: Vec<String>,
}

/// The paths of the entries that are files naming pictures, in listing order.
pub open spec fn listed_pictures(es: Seq<DirEntryInfo>) -> Seq<Seq<char>>
    decreases es.len(),
{
    if es.len() == 0 {
        Seq::empty()
    } else {
        let e = es.last();
        listed_pictures(es.drop_last()) + if !e.is_dir && e.is_file && is_picture_name(e.path@) {
            seq![e.path@]
        } else {
            Seq::empty()
        }
    }
}

/// The paths of the entries that are folders, in listing order.
pub open spec fn listed_dirs(es: Seq<DirEntryInfo>) -> Seq<Seq<char>>
    decreases es.len(),
{
    if es.len() == 0 {
        Seq::empty()
    } else {
        let e = es.last();
        listed_dirs(es.drop_last()) + if e.is_dir {
            seq![e.path@]
        } else {
            Seq::empty()
        }
    }
}

/// A path is among the pictures of a listing exactly when some entry with that
/// path is a file, not a folder, and names a picture; and among the subfolders
/// exactly when some entry with that path is a folder. Both keep the
/// listing's order and hold no more entries than it.
pub proof fn law_sorted_entries(es: Seq<DirEntryInfo>, x: Seq<char>)
    ensures
        listed_pictures(es).contains(x) <==> exists|i: int|
            0 <= i < es.len() && (#[trigger] es[i]).path@ == x && es[i].is_file && !es[i].is_dir
                && is_picture_name(x),
        listed_dirs(es).contains(x) <==> exists|i: int|
            0 <= i < es.len() && (#[trigger] es[i]).path@ == x && es[i].is_dir,
        listed_pictures(es).len() + listed_dirs(es).len() <= es.len(),
    decreases es.len(),
{
    if es.len() > 0 {
        let prev = es.drop_last();
        let e = es.last();
        law_sorted_entries(prev, x);
        let lp = listed_pictures(prev);
        let ld = listed_dirs(prev);
        let pic = !e.is_dir && e.is_file && is_picture_name(e.path@);
        let tp: Seq<Seq<char>> = if pic { seq![e.path@] } else { Seq::empty() };
        let td: Seq<Seq<char>> = if e.is_dir { seq![e.path@] } else { Seq::empty() };
        assert(listed_pictures(es) == lp + tp);
        assert(listed_dirs(es) == ld + td);
        if listed_pictures(es).contains(x) {
            let j = choose|j: int| 0 <= j < listed_pictures(es).len() && listed_pictures(es)[j] == x;
            if j < lp.len() {
                assert(lp[j] == x);
                assert(lp.contains(x));
                let i = choose|i: int|
                    0 <= i < prev.len() && (#[trigger] prev[i]).path@ == x && prev[i].is_file
                        && !prev[i].is_dir && is_picture_name(x);
                assert(es[i] == prev[i]);
            } else {
                assert(es[es.len() - 1] == e);
            }
        }
        if exists|i: int|
            0 <= i < es.len() && (#[trigger] es[i]).path@ == x && es[i].is_file && !es[i].is_dir
                && is_picture_name(x) {
            let i = choose|i: int|
                0 <= i < es.len() && (#[trigger] es[i]).path@ == x && es[i].is_file && !es[i].is_dir
                    && is_picture_name(x);
            if i < prev.len() {
                assert(prev[i] == es[i]);
                let j = choose|j: int| 0 <= j < lp.len() && lp[j] == x;
                assert(listed_pictures(es)[j] == x);
            } else {
                assert(es[i] == e);
                assert(listed_pictures(es)[lp.len() as int] == x);
            }
        }
        if listed_dirs(es).contains(x) {
            let j = choose|j: int| 0 <= j < listed_dirs(es).len() && listed_dirs(es)[j] == x;
            if j < ld.len() {
                assert(ld[j] == x);
                assert(ld.contains(x));
                let i = choose|i: int| 0 <= i < prev.len() && (#[trigger] prev[i]).path@ == x && prev[i].is_dir;
                assert(es[i] == prev[i]);
            } else {
                assert(es[es.len() - 1] == e);
            }
        }
        if exists|i: int| 0 <= i < es.len() && (#[trigger] es[i]).path@ == x && es[i].is_dir {
            let i = choose|i: int| 0 <= i < es.len() && (#[trigger] es[i]).path@ == x && es[i].is_dir;
            if i < prev.len() {
                assert(prev[i] == es[i]);
                let j = choose|j: int| 0 <= j < ld.len() && ld[j] == x;
                assert(listed_dirs(es)[j] == x);
            } else {
                assert(es[i] == e);
                assert(listed_dirs(es)[ld.len() as int] == x);
            }
        }
    }
}

/// Sorts the entries of one folder into its pictures and its subfolders.
pub fn sort_dir_entries(entries: &Vec<DirEntryInfo>) -> (r: DirListing)
    ensures
        views(r.files@) == listed_pictures(entries@),
        views(r.dirs@) == listed_dirs(entries@),
{
    let mut files: Vec<String> = Vec::new();
    let mut dirs: Vec<String> = Vec::new();
    for k in 0..entries.len()
        invariant
            views(files@) == listed_pictures(entries@.take(k as int)),
            views(dirs@) == listed_dirs(entries@.take(k as int)),
    {
        let e = &entries[k];
        let ghost before_files = files@;
        let ghost before_dirs = dirs@;
        proof {
            assert(entries@.take(k + 1).drop_last() =~= entries@.take(k as int));
            assert(entries@.take(k + 1).last() == entries@[k as int]);
        }
        if e.is_dir {
            dirs.push(e.path.clone());
            assert(views(dirs@) =~= views(before_dirs).push(e.path@));
            assert(views(files@) =~= views(before_files) + Seq::<Seq<char>>::empty());
        } else if e.is_file && is_picture_path(e.path.as_str()) {
            files.push(e.path.clone());
            assert(views(files@) =~= views(before_files).push(e.path@));
            assert(views(dirs@) =~= views(before_dirs) + Seq::<Seq<char>>::empty());
        } else {
            assert(views(files@) =~= views(before_files) + Seq::<Seq<char>>::empty());
            assert(views(dirs@) =~= views(before_dirs) + Seq::<Seq<char>>::empty());
        }
    }
    assert(entries@.take(entries.len() as int) =~= entries@);
    DirListing { files, dirs }
}

/// What one folder listing gives the walk: its pictures and its subfolders.
pub type ListingView = (Seq<Seq<char>>, Seq<Seq<char>>);

/// The pictures found and the folders still pending after a walk from `root`
/// has taken in the listings `ls` one after the other, each the listing of the
/// folder that was pending last.
pub open spec fn walk_after(root: Seq<char>, ls: Seq<ListingView>) -> ListingView
    decreases ls.len(),
{
    if ls.len() == 0 {
        (Seq::empty(), seq![root])
    } else {
        let before = walk_after(root, ls.drop_last());
        (before.0 + ls.last().0, before.1.drop_last() + ls.last().1)
    }
}

/// A walk through a folder and all its subfolders: the pictures found so far,
/// the folders still to be listed (the next one last), whether a folder was
/// handed out and its listing is awaited, and, as ghosts, the root and the
/// listings taken in so far. The walk always stands where those listings lead
/// (see `walk_after`).
pub struct DirWalk {
    files: Vec<String>,
    pending: Vec<String>,
    awaiting: bool,
    root: Ghost<Seq<char>>,
    listed: Ghost<Seq<ListingView>>,
}

impl DirWalk {
    /// The walk is where the listings taken in so far lead; while a listing is
    /// awaited, the folder it lists is off the pending ones.
    #[verifier::type_invariant]
    spec fn inv(&self) -> bool {
        let w = walk_after(self.root@, self.listed@);
        &&& views(self.files@) == w.0
        &&& if self.awaiting {
            w.1.len() > 0 && views(self.pending@) == w.1.drop_last()
        } else {
            views(self.pending@) == w.1
        }
    }

    /// The pictures found so far.
    pub closed spec fn found(&self) -> Seq<String> {
        self.files@
    }

    /// The folders still to be listed, the next one last.
    pub closed spec fn to_list(&self) -> Seq<String> {
        self.pending@
    }

    /// A folder was handed out and its listing is awaited.
    pub closed spec fn awaits(&self) -> bool {
        self.awaiting
    }

    /// The folder the walk started from.
    pub closed spec fn root(&self) -> Seq<char> {
        self.root@
    }

    /// The listings taken in so far, in order.
    pub closed spec fn listings(&self) -> Seq<ListingView> {
        self.listed@
    }

    /// A walk that has found nothing yet and has only the root to list.
    pub fn new(root: &str) -> (r: DirWalk)
        ensures
            !r.awaits(),
            r.root() == root@,
            r.listings().len() == 0,
            r.found().len() == 0,
            views(r.to_list()) == seq![root@],
    {
        let mut pending: Vec<String> = Vec::new();
        pending.push(root.to_owned());
        let files: Vec<String> = Vec::new();
        assert(views(pending@) =~= seq![root@]);
        assert(views(files@) =~= Seq::<Seq<char>>::empty());
        DirWalk {
            files,
            pending,
            awaiting: false,
            root: Ghost(root@),
            listed: Ghost(Seq::empty()),
        }
    }

    /// Whether a folder was handed out and its listing is awaited.
    pub fn is_awaiting(&self) -> (r: bool)
        ensures
            r == self.awaits(),
    {
        self.awaiting
    }

    /// The next folder to list, taken off the pending ones; `None` when the
    /// walk is over. After a folder, its listing is awaited.
    pub fn next_dir(&mut self) -> (r: Option<String>)
        requires
            !old(self).awaits(),
        ensures
            final(self).root() == old(self).root(),
            final(self).listings() == old(self).listings(),
            final(self).found() == old(self).found(),
            final(self).awaits() == (r is Some),
            old(self).to_list().len() == 0 ==> r is None && final(self).to_list() == old(
                self,
            ).to_list(),
            old(self).to_list().len() > 0 ==> r == Some(old(self).to_list().last())
                && final(self).to_list() == old(self).to_list().drop_last(),
            r matches Some(d) ==> d@ == walk_after(old(self).root(), old(self).listings()).1.last(),
            r is None <==> walk_after(old(self).root(), old(self).listings()).1.len() == 0,
    {
        proof {
            use_type_invariant(&*self);
        }
        let mut walk = DirWalk::placeholder();
        std::mem::swap(self, &mut walk);
        let DirWalk { files, mut pending, awaiting, root, listed } = walk;
        let ghost before = pending@;
        let r = pending.pop();
        proof {
            if r is Some {
                assert(views(pending@) =~= views(before).drop_last());
                assert(views(before).last() == before.last()@);
            } else {
                assert(views(before).len() == 0);
            }
        }
        *self = DirWalk { files, pending, awaiting: r.is_some(), root, listed };
        r
    }

    /// A walk standing where no listing leads but an empty root, used while
    /// a walk is taken apart and put together again.
    fn placeholder() -> (r: DirWalk) {
        let mut pending: Vec<String> = Vec::new();
        pending.push(String::new());
        let files: Vec<String> = Vec::new();
        assert(views(pending@) =~= seq![Seq::<char>::empty()]);
        assert(views(files@) =~= Seq::<Seq<char>>::empty());
        DirWalk {
            files,
            pending,
            awaiting: false,
            root: Ghost(Seq::empty()),
            listed: Ghost(Seq::empty()),
        }
    }

    /// Takes in the listing of the folder last handed out: its pictures join
    /// the found ones and its subfolders join the pending ones, in listing order.
    pub fn absorb(&mut self, listing: DirListing)
        requires
            old(self).awaits(),
        ensures
            !final(self).awaits(),
            final(self).root() == old(self).root(),
            final(self).listings() == old(self).listings().push(
                (views(listing.files@), views(listing.dirs@)),
            ),
            final(self).found() == old(self).found() + listing.files@,
            final(self).to_list() == old(self).to_list() + listing.dirs@,
    {
        proof {
            use_type_invariant(&*self);
        }
        let mut walk = DirWalk::placeholder();
        std::mem::swap(self, &mut walk);
        let DirWalk { mut files, mut pending, awaiting, root, listed } = walk;
        let ghost entry: ListingView = (views(listing.files@), views(listing.dirs@));
        let ghost old_files = files@;
        let ghost old_pending = pending@;
        let mut listing = listing;
        let ghost lf = listing.files@;
        let ghost ld = listing.dirs@;
        files.append(&mut listing.files);
        pending.append(&mut listing.dirs);
        let ghost new_listed = listed@.push(entry);
        proof {
            assert(new_listed.drop_last() =~= listed@);
            assert(views(files@) =~= views(old_files) + views(lf));
            assert(views(pending@) =~= views(old_pending) + views(ld));
        }
        *self = DirWalk { files, pending, awaiting: false, root, listed: Ghost(new_listed) };
    }

    /// The pictures found and the folders left unlisted (none, once `next_dir`
    /// has answered `None`): what the listings taken in lead to.
    pub fn finish(self) -> (r: (Vec<String>, Vec<String>))
        requires
            !self.awaits(),
        ensures
            r.0@ == self.found(),
            r.1@ == self.to_list(),
            views(r.0@) == walk_after(self.root(), self.listings()).0,
            views(r.1@) == walk_after(self.root(), self.listings()).1,
    {
        proof {
            use_type_invariant(&self);
        }
        let DirWalk { files, pending, awaiting, root, listed } = self;
        (files, pending)
    }
}

/// The pictures of the first folder listed (the root) come first among all the
/// pictures the walk finds; and when the root has no subfolders, the walk ends
/// with the root's listing, its pictures being all that is found.
pub proof fn law_walk_starts_with_root(root: Seq<char>, ls: Seq<ListingView>)
    requires
        ls.len() >= 1,
    ensures
        walk_after(root, ls).0.len() >= ls[0].0.len(),
        walk_after(root, ls).0.subrange(0, ls[0].0.len() as int) == ls[0].0,
        ls[0].1.len() == 0 ==> walk_after(root, ls.take(1)) == (ls[0].0, Seq::<Seq<char>>::empty()),
    decreases ls.len(),
{
    let one = ls.take(1);
    assert(one.drop_last() =~= Seq::<ListingView>::empty());
    assert(one.last() == ls[0]);
    let start = walk_after(root, one.drop_last());
    assert(start == walk_after(root, Seq::<ListingView>::empty()));
    assert(start.0 == Seq::<Seq<char>>::empty());
    assert(start.1 == seq![root]);
    assert(walk_after(root, one) == (start.0 + ls[0].0, start.1.drop_last() + ls[0].1));
    assert(walk_after(root, one).0 =~= ls[0].0);
    if ls[0].1.len() == 0 {
        assert(start.1.drop_last() + ls[0].1 =~= Seq::<Seq<char>>::empty());
    }
    if ls.len() == 1 {
        assert(ls =~= one);
        assert(walk_after(root, ls).0.subrange(0, ls[0].0.len() as int) =~= ls[0].0);
    } else {
        let shorter = ls.drop_last();
        law_walk_starts_with_root(root, shorter);
        assert(shorter[0] == ls[0]);
        let w = walk_after(root, ls).0;
        let ws = walk_after(root, shorter).0;
        assert(w == ws + ls.last().0);
        assert(w.subrange(0, ls[0].0.len() as int) =~= ws.subrange(0, ls[0].0.len() as int));
    }
}


// ---------------------------------------------------------------------------
// Which folders a finished walk lists
// ---------------------------------------------------------------------------

/// The folders that a walk from `root` has listed, in order, after taking in
/// the listings `ls`: each time the folder that was pending last.
pub open spec fn walk_visited(root: Seq<char>, ls: Seq<ListingView>) -> Seq<Seq<char>>
    decreases ls.len(),
{
    if ls.len() == 0 {
        Seq::empty()
    } else {
        walk_visited(root, ls.drop_last()).push(walk_after(root, ls.drop_last()).1.last())
    }
}

/// Each listing was taken in while a folder was pending, and its subfolders are
/// those that the folder tree `children` gives for the folder it lists.
pub open spec fn walk_follows(
    root: Seq<char>,
    ls: Seq<ListingView>,
    children: spec_fn(Seq<char>) -> Seq<Seq<char>>,
) -> bool
    decreases ls.len(),
{
    if ls.len() == 0 {
        true
    } else {
        let before = walk_after(root, ls.drop_last());
        &&& walk_follows(root, ls.drop_last(), children)
        &&& before.1.len() > 0
        &&& ls.last().1 == children(before.1.last())
    }
}

/// `path` leads from `root` down through subfolders, one step at a time.
pub open spec fn is_folder_path(
    children: spec_fn(Seq<char>) -> Seq<Seq<char>>,
    root: Seq<char>,
    path: Seq<Seq<char>>,
) -> bool {
    &&& path.len() >= 1
    &&& path[0] == root
    &&& forall|i: int| 0 <= i < path.len() - 1 ==> children(#[trigger] path[i]).contains(path[i + 1])
}

/// `f` can be reached from `root` through subfolders.
pub open spec fn reachable(children: spec_fn(Seq<char>) -> Seq<Seq<char>>, root: Seq<char>, f: Seq<char>) -> bool {
    exists|path: Seq<Seq<char>>| #[trigger] is_folder_path(children, root, path) && path.last() == f
}

/// No item occurs twice.
pub open spec fn no_repeats(s: Seq<Seq<char>>) -> bool {
    forall|i: int, j: int| 0 <= i < j < s.len() ==> s[i] != s[j]
}

/// The folders form a tree under `root`: the root is nobody's subfolder, no
/// folder lists a subfolder twice, and no two folders share a subfolder.
pub open spec fn is_tree(children: spec_fn(Seq<char>) -> Seq<Seq<char>>, root: Seq<char>) -> bool {
    &&& forall|p: Seq<char>| !(#[trigger] children(p)).contains(root)
    &&& forall|p: Seq<char>| no_repeats(#[trigger] children(p))
    &&& forall|p: Seq<char>, q: Seq<char>, x: Seq<char>|
        #![trigger children(p).contains(x), children(q).contains(x)]
        p != q && children(p).contains(x) ==> !children(q).contains(x)
}

/// `x` is the root or a subfolder of a folder listed so far.
pub open spec fn generated(
    children: spec_fn(Seq<char>) -> Seq<Seq<char>>,
    root: Seq<char>,
    visited: Seq<Seq<char>>,
    x: Seq<char>,
) -> bool {
    x == root || exists|k: int| 0 <= k < visited.len() && (#[trigger] children(visited[k])).contains(x)
}

proof fn lemma_walk_invariant(root: Seq<char>, ls: Seq<ListingView>, children: spec_fn(Seq<char>) -> Seq<Seq<char>>)
    requires
        walk_follows(root, ls, children),
    ensures
        ({
            let v = walk_visited(root, ls);
            let q = walk_after(root, ls).1;
            &&& forall|x: Seq<char>| generated(children, root, v, x) ==> v.contains(x) || q.contains(x)
            &&& forall|x: Seq<char>| v.contains(x) || q.contains(x) ==> reachable(children, root, x)
            &&& is_tree(children, root) ==> {
                &&& forall|x: Seq<char>| v.contains(x) || q.contains(x) ==> generated(children, root, v, x)
                &&& no_repeats(v)
                &&& no_repeats(q)
                &&& forall|x: Seq<char>| v.contains(x) ==> !q.contains(x)
            }
        }),
    decreases ls.len(),
{
    let v = walk_visited(root, ls);
    let q = walk_after(root, ls).1;
    if ls.len() == 0 {
        assert(q == seq![root]);
        assert(v == Seq::<Seq<char>>::empty());
        assert forall|x: Seq<char>| generated(children, root, v, x) implies v.contains(x) || q.contains(x) by {
            assert(q[0] == root);
        }
        assert forall|x: Seq<char>| v.contains(x) || q.contains(x) implies reachable(children, root, x) by {
            assert(is_folder_path(children, root, seq![root]));
        }
    } else {
        let prev = ls.drop_last();
        lemma_walk_invariant(root, prev, children);
        let v0 = walk_visited(root, prev);
        let q0 = walk_after(root, prev).1;
        let top = q0.last();
        let kids = children(top);
        assert(v == v0.push(top));
        assert(ls.last().1 == kids);
        assert(q == q0.drop_last() + kids);
        assert(q0.contains(top)) by {
            assert(q0[q0.len() - 1] == top);
        }
        // Every generated folder is listed or pending.
        assert forall|x: Seq<char>| generated(children, root, v, x) implies v.contains(x) || q.contains(x) by {
            let in_old = generated(children, root, v0, x);
            if in_old {
                if v0.contains(x) {
                    let i = choose|i: int| 0 <= i < v0.len() && v0[i] == x;
                    assert(v[i] == x);
                } else {
                    assert(q0.contains(x));
                    let i = choose|i: int| 0 <= i < q0.len() && q0[i] == x;
                    if i == q0.len() - 1 {
                        assert(v[v.len() - 1] == x);
                    } else {
                        assert(q[i] == x);
                    }
                }
            } else {
                assert(x != root);
                let k = choose|k: int| 0 <= k < v.len() && (#[trigger] children(v[k])).contains(x);
                if k < v0.len() {
                    assert(v[k] == v0[k]);
                    assert(false);
                }
                assert(v[k] == top);
                let j = choose|j: int| 0 <= j < kids.len() && kids[j] == x;
                assert(q[q0.len() - 1 + j] == x);
            }
        }
        // Every listed or pending folder is reachable.
        assert forall|x: Seq<char>| v.contains(x) || q.contains(x) implies reachable(children, root, x) by {
            if v.contains(x) {
                let i = choose|i: int| 0 <= i < v.len() && v[i] == x;
                if i < v0.len() {
                    assert(v0[i] == x);
                    assert(v0.contains(x));
                } else {
                    assert(q0.contains(x));
                }
            } else {
                let i = choose|i: int| 0 <= i < q.len() && q[i] == x;
                if i < q0.len() - 1 {
                    assert(q0[i] == x);
                    assert(q0.contains(x));
                } else {
                    assert(kids[i - (q0.len() - 1)] == x);
                    assert(kids.contains(x));
                    assert(reachable(children, root, top));
                    let path = choose|path: Seq<Seq<char>>| #[trigger] is_folder_path(children, root, path) && path.last() == top;
                    lemma_reach_child(children, root, path, x);
                }
            }
        }
        if is_tree(children, root) {
            // A pending folder's subfolders are neither listed nor pending yet.
            assert forall|x: Seq<char>| kids.contains(x) implies !v0.contains(x) && !q0.contains(x) by {
                if v0.contains(x) || q0.contains(x) {
                    assert(generated(children, root, v0, x));
                    assert(x != root);
                    let k = choose|k: int| 0 <= k < v0.len() && (#[trigger] children(v0[k])).contains(x);
                    if v0[k] == top {
                        assert(v0.contains(top));
                    } else {
                        assert(!children(top).contains(x));
                    }
                }
            }
            assert forall|x: Seq<char>| v.contains(x) || q.contains(x) implies generated(
                children,
                root,
                v,
                x,
            ) by {
                let from_old = v0.contains(x) || q0.contains(x);
                if from_old {
                    if x != root {
                        let k = choose|k: int| 0 <= k < v0.len() && (#[trigger] children(v0[k])).contains(x);
                        assert(v[k] == v0[k]);
                    }
                } else if v.contains(x) {
                    let i = choose|i: int| 0 <= i < v.len() && v[i] == x;
                    if i < v0.len() {
                        assert(v0[i] == x);
                    } else {
                        assert(q0.contains(x));
                    }
                } else {
                    let i = choose|i: int| 0 <= i < q.len() && q[i] == x;
                    if i < q0.len() - 1 {
                        assert(q0[i] == x);
                        assert(q0.contains(x));
                    } else {
                        assert(kids[i - (q0.len() - 1)] == x);
                        assert(v[v0.len() as int] == top);
                        assert(children(v[v0.len() as int]).contains(x));
                    }
                }
            }
            assert(no_repeats(v)) by {
                assert forall|i: int, j: int| 0 <= i < j < v.len() implies v[i] != v[j] by {
                    if j == v.len() - 1 {
                        assert(v0[i] == v[i]);
                        assert(v0.contains(v[i]));
                    }
                }
            }
            assert(no_repeats(q)) by {
                assert forall|i: int, j: int| 0 <= i < j < q.len() implies q[i] != q[j] by {
                    let m = q0.len() - 1;
                    if j < m {
                        assert(q[i] == q0[i] && q[j] == q0[j]);
                    } else if i < m {
                        assert(q[i] == q0[i]);
                        assert(q0.contains(q[i]));
                        assert(kids[j - m] == q[j]);
                        assert(kids.contains(q[j]));
                    } else {
                        assert(q[i] == kids[i - m] && q[j] == kids[j - m]);
                        assert(no_repeats(children(top)));
                    }
                }
            }
            assert forall|x: Seq<char>| v.contains(x) implies !q.contains(x) by {
                let i = choose|i: int| 0 <= i < v.len() && v[i] == x;
                if q.contains(x) {
                    let j = choose|j: int| 0 <= j < q.len() && q[j] == x;
                    let m = q0.len() - 1;
                    if j < m {
                        assert(q0[j] == x);
                        if i < v0.len() {
                            assert(v0[i] == x);
                            assert(v0.contains(x));
                            assert(q0.contains(x));
                        } else {
                            assert(q0[m] == x);
                        }
                    } else {
                        assert(kids[j - m] == x);
                        assert(kids.contains(x));
                        if i < v0.len() {
                            assert(v0[i] == x);
                            assert(v0.contains(x));
                        } else {
                            assert(q0.contains(x));
                        }
                    }
                }
            }
        }
    }
}

proof fn lemma_reach_child(
    children: spec_fn(Seq<char>) -> Seq<Seq<char>>,
    root: Seq<char>,
    path: Seq<Seq<char>>,
    x: Seq<char>,
)
    requires
        is_folder_path(children, root, path),
        children(path.last()).contains(x),
    ensures
        is_folder_path(children, root, path.push(x)),
        reachable(children, root, x),
{
    let longer = path.push(x);
    assert forall|i: int| 0 <= i < longer.len() - 1 implies children(#[trigger] longer[i]).contains(
        longer[i + 1],
    ) by {
        if i < path.len() - 1 {
            assert(longer[i] == path[i] && longer[i + 1] == path[i + 1]);
        } else {
            assert(longer[i] == path.last());
        }
    }
    assert(longer.last() == x);
    assert(is_folder_path(children, root, longer));
    assert(is_folder_path(children, root, longer) && longer.last() == x);
}

proof fn lemma_reachable_listed(
    children: spec_fn(Seq<char>) -> Seq<Seq<char>>,
    root: Seq<char>,
    v: Seq<Seq<char>>,
    path: Seq<Seq<char>>,
)
    requires
        forall|x: Seq<char>| generated(children, root, v, x) ==> v.contains(x),
        is_folder_path(children, root, path),
    ensures
        v.contains(path.last()),
    decreases path.len(),
{
    if path.len() == 1 {
        assert(generated(children, root, v, path.last()));
    } else {
        let shorter = path.drop_last();
        assert(is_folder_path(children, root, shorter)) by {
            assert forall|i: int| 0 <= i < shorter.len() - 1 implies children(#[trigger] shorter[i]).contains(
                shorter[i + 1],
            ) by {
                assert(shorter[i] == path[i] && shorter[i + 1] == path[i + 1]);
            }
        }
        lemma_reachable_listed(children, root, v, shorter);
        let p = shorter.last();
        assert(children(path[path.len() - 2]).contains(path[path.len() - 1]));
        let k = choose|k: int| 0 <= k < v.len() && v[k] == p;
        assert(children(v[k]).contains(path.last()));
        assert(generated(children, root, v, path.last()));
    }
}

/// A finished walk (nothing left pending) whose listings follow a folder tree
/// has listed exactly the folders reachable from the root; and where the
/// folders form a tree, it has listed each of them once.
pub proof fn law_walk_lists_reachable_folders(
    root: Seq<char>,
    ls: Seq<ListingView>,
    children: spec_fn(Seq<char>) -> Seq<Seq<char>>,
)
    requires
        walk_follows(root, ls, children),
        walk_after(root, ls).1.len() == 0,
    ensures
        forall|f: Seq<char>| #[trigger] reachable(children, root, f) <==> walk_visited(root, ls).contains(f),
        is_tree(children, root) ==> no_repeats(walk_visited(root, ls)),
{
    lemma_walk_invariant(root, ls, children);
    let v = walk_visited(root, ls);
    let q = walk_after(root, ls).1;
    assert forall|x: Seq<char>| generated(children, root, v, x) implies v.contains(x) by {
        if q.contains(x) {
            let i = choose|i: int| 0 <= i < q.len() && q[i] == x;
        }
    }
    assert forall|f: Seq<char>| #[trigger] reachable(children, root, f) <==> v.contains(f) by {
        if reachable(children, root, f) {
            let path = choose|path: Seq<Seq<char>>| #[trigger] is_folder_path(children, root, path) && path.last() == f;
            lemma_reachable_listed(children, root, v, path);
        }
    }
}

} // verus!
