use vstd::prelude::*;
use vstd::string::StrSliceExecFns;

verus! {

/// Mathematical model of a song: exactly the fields the sequencer's
/// contracts read.
#[verifier::ext_equal]
pub ghost struct SongM {
    /// Display name, taken from a playlist label or derived from the path.
    pub name: Seq<char>,
    /// Filesystem location; primary identity for matching override targets.
    pub path: Seq<char>,
    /// Path of a song that must play immediately after this one, if any.
    pub next: Option<Seq<char>>,
    /// Excluded from automatic shuffle selection.
    pub no_shuffle: bool,
    /// Came from the loaded playlist, as opposed to being synthesized to
    /// satisfy an override; only such songs feed the bag's refill.
    pub user_added: bool,
    /// Duration in seconds declared by playlist metadata, if any.
    pub duration: Option<u64>,
}

/// One song known to the registry.  Immutable after registration.
pub struct Song {
    pub name: String,
    pub path: String,
    pub next: Option<String>,
    pub no_shuffle: bool,
    pub user_added: bool,
    pub duration: Option<u64>,
}

impl View for Song {
    type V = SongM;

    open spec fn view(&self) -> SongM {
        SongM {
            name: self.name@,
            path: self.path@,
            next: self.next.deep_view(),
            no_shuffle: self.no_shuffle,
            user_added: self.user_added,
            duration: self.duration,
        }
    }
}

impl DeepView for Song {
    type V = SongM;

    open spec fn deep_view(&self) -> SongM {
        self.view()
    }
}

/// The part of `p` after its last `/`; the whole of `p` when it has none.
pub open spec fn file_name_of(p: Seq<char>) -> Seq<char>
    decreases p.len(),
{
    if p.len() == 0 {
        p
    } else if p.last() == '/' {
        Seq::<char>::empty()
    } else {
        file_name_of(p.drop_last()).push(p.last())
    }
}

proof fn lemma_file_name_no_slash(p: Seq<char>)
    requires
        forall|k: int| 0 <= k < p.len() ==> p[k] != '/',
    ensures
        file_name_of(p) == p,
    decreases p.len(),
{
    if p.len() > 0 {
        lemma_file_name_no_slash(p.drop_last());
        assert(file_name_of(p.drop_last()).push(p.last()) =~= p);
    }
}

proof fn lemma_file_name_after_slash(p: Seq<char>, j: int)
    requires
        0 <= j < p.len(),
        p[j] == '/',
        forall|k: int| j < k < p.len() ==> p[k] != '/',
    ensures
        file_name_of(p) == p.subrange(j + 1, p.len() as int),
    decreases p.len(),
{
    if j == p.len() - 1 {
        assert(file_name_of(p) =~= p.subrange(j + 1, p.len() as int));
    } else {
        lemma_file_name_after_slash(p.drop_last(), j);
        assert(file_name_of(p.drop_last()).push(p.last()) =~= p.subrange(
            j + 1,
            p.len() as int,
        ));
    }
}

/// The last path component, as a borrowed slice.
pub fn file_name_slice(path: &str) -> (r: &str)
    ensures
        r@ == file_name_of(path@),
{
    let n = path.unicode_len();
    let mut i: usize = n;
    while i > 0
        invariant
            n == path@.len(),
            i <= n,
            forall|k: int| i <= k < n ==> path@[k] != '/',
        decreases i,
    {
        if path.get_char(i - 1) == '/' {
            let r = path.substring_char(i, n);
            proof {
                lemma_file_name_after_slash(path@, i - 1);
            }
            return r;
        }
        i -= 1;
    }
    proof {
        lemma_file_name_no_slash(path@);
        assert(path@.subrange(0, n as int) =~= path@);
    }
    path.substring_char(0, n)
}

/// The display name a freshly registered song gets from its path.
pub fn derive_name(path: &str) -> (r: String)
    ensures
        r@ == file_name_of(path@),
{
    file_name_slice(path).to_owned()
}

/// The extension of a file name: what follows its last `.`, provided
/// the dot is neither its first character (hidden files have no
/// extension) nor absent.
pub open spec fn ext_of_name(name: Seq<char>) -> Option<Seq<char>>
    decreases name.len(),
{
    if name.len() <= 1 {
        None
    } else if name.last() == '.' {
        Some(Seq::<char>::empty())
    } else {
        match ext_of_name(name.drop_last()) {
            Some(e) => Some(e.push(name.last())),
            None => None,
        }
    }
}

proof fn lemma_ext_no_dot(name: Seq<char>)
    requires
        forall|k: int| 1 <= k < name.len() ==> name[k] != '.',
    ensures
        ext_of_name(name) is None,
    decreases name.len(),
{
    if name.len() > 1 {
        lemma_ext_no_dot(name.drop_last());
    }
}

proof fn lemma_ext_after_dot(name: Seq<char>, j: int)
    requires
        1 <= j < name.len(),
        name[j] == '.',
        forall|k: int| j < k < name.len() ==> name[k] != '.',
    ensures
        ext_of_name(name) == Some(name.subrange(j + 1, name.len() as int)),
    decreases name.len(),
{
    if j == name.len() - 1 {
        assert(name.subrange(j + 1, name.len() as int) =~= Seq::<char>::empty());
    } else {
        lemma_ext_after_dot(name.drop_last(), j);
        assert(name.drop_last().subrange(j + 1, name.len() - 1).push(name.last()) =~= name.subrange(
            j + 1,
            name.len() as int,
        ));
    }
}

/// The extension of the path's last component, if it has one.
pub fn extension_of(path: &str) -> (r: Option<&str>)
    ensures
        match r {
            Some(e) => ext_of_name(file_name_of(path@)) == Some(e@),
            None => ext_of_name(file_name_of(path@)) is None,
        },
{
    let name = file_name_slice(path);
    let n = name.unicode_len();
    let mut i: usize = n;
    while i > 1
        invariant
            name@ == file_name_of(path@),
            n == name@.len(),
            i <= n,
            forall|k: int| i <= k < n ==> name@[k] != '.',
        decreases i,
    {
        if name.get_char(i - 1) == '.' {
            let r = name.substring_char(i, n);
            proof {
                lemma_ext_after_dot(name@, i - 1);
            }
            return Some(r);
        }
        i -= 1;
    }
    proof {
        lemma_ext_no_dot(name@);
    }
    None
}

/// Whether a path names a playlist file, by its extension.
pub fn is_playlist_path(path: &str) -> (r: bool)
    ensures
        r == (match ext_of_name(file_name_of(path@)) {
            Some(e) => e == "m3u"@ || e == "m3u4"@,
            None => false,
        }),
{
    match extension_of(path) {
        Some(e) => crate::text::str_eq(e, "m3u") || crate::text::str_eq(e, "m3u4"),
        None => false,
    }
}

impl Song {
    /// A plain user-added song at `path`, named after the path's last
    /// component, with no metadata.
    pub fn new(path: String) -> (s: Song)
        ensures
            s@ == (SongM {
                name: file_name_of(path@),
                path: path@,
                next: None,
                no_shuffle: false,
                user_added: true,
                duration: None,
            }),
    {
        let name = derive_name(path.as_str());
        Song { name, path, next: None, no_shuffle: false, user_added: true, duration: None }
    }

    /// Builder: set the override that must play right after this song.
    pub fn next(self, next: Option<String>) -> (s: Song)
        ensures
            s@ == (SongM { next: next.deep_view(), ..self@ }),
    {
        Song { next, ..self }
    }

    /// Builder: exclude the song from automatic shuffle selection.
    pub fn no_shuffle(self, no_shuffle: bool) -> (s: Song)
        ensures
            s@ == (SongM { no_shuffle, ..self@ }),
    {
        Song { no_shuffle, ..self }
    }
}

} // verus!
