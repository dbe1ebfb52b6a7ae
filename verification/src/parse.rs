use vstd::prelude::*;
use vstd::string::StrSliceExecFns;

use crate::song::{derive_name, file_name_of, Song, SongM};
use crate::text::{
    all_digits, digits_val, find_char, first_idx_of, has_prefix, lemma_first_idx_of, parse_u64,
    spec_has_prefix, str_eq, trim, trimmed,
};

verus! {

/// The lines of `s`, split on newline characters.  A trailing newline
/// yields a final empty line; the empty text is one empty line.
pub open spec fn spec_lines(s: Seq<char>) -> Seq<Seq<char>>
    decreases s.len(),
{
    if s.len() == 0 {
        seq![Seq::<char>::empty()]
    } else if s[0] == '\n' {
        seq![Seq::<char>::empty()] + spec_lines(s.drop_first())
    } else {
        let rest = spec_lines(s.drop_first());
        seq![seq![s[0]] + rest[0]] + rest.drop_first()
    }
}

proof fn lemma_lines_len(s: Seq<char>)
    ensures
        spec_lines(s).len() >= 1,
    decreases s.len(),
{
    if s.len() > 0 {
        lemma_lines_len(s.drop_first());
    }
}

/// Cutting at the first newline: the first line is everything before
/// it, the remaining lines are the lines of what follows it.
proof fn lemma_lines_cut(s: Seq<char>, k: int)
    requires
        0 <= k <= s.len(),
        forall|i: int| 0 <= i < k ==> s[i] != '\n',
        k < s.len() ==> s[k] == '\n',
    ensures
        k == s.len() ==> spec_lines(s) =~~= seq![s],
        k < s.len() ==> spec_lines(s) =~~= seq![s.take(k)] + spec_lines(s.skip(k + 1)),
    decreases k,
{
    if k == 0 {
        if s.len() == 0 {
            assert(spec_lines(s) =~~= seq![s]);
        } else {
            assert(s.take(0) =~= Seq::<char>::empty());
            assert(s.skip(1) =~= s.drop_first());
            assert(spec_lines(s) =~~= seq![s.take(0)] + spec_lines(s.skip(1)));
        }
    } else {
        assert(forall|i: int| 0 <= i < k - 1 ==> s.drop_first()[i] != '\n');
        lemma_lines_cut(s.drop_first(), k - 1);
        lemma_lines_len(s.drop_first());
        let rest = spec_lines(s.drop_first());
        if k == s.len() {
            assert(rest =~~= seq![s.drop_first()]);
            assert(seq![s[0]] + s.drop_first() =~= s);
            assert(spec_lines(s) =~~= seq![s]);
        } else {
            assert(rest =~~= seq![s.drop_first().take(k - 1)] + spec_lines(
                s.drop_first().skip(k),
            ));
            assert(seq![s[0]] + s.drop_first().take(k - 1) =~= s.take(k));
            assert(s.drop_first().skip(k) =~= s.skip(k + 1));
            assert(spec_lines(s) =~~= seq![s.take(k)] + spec_lines(s.skip(k + 1)));
        }
    }
}

/// Split a text into its lines.
pub fn split_lines(text: &str) -> (r: Vec<String>)
    ensures
        r.deep_view() == spec_lines(text@),
{
    let n = text.unicode_len();
    let mut r: Vec<String> = Vec::new();
    let mut start: usize = 0;
    let mut i: usize = 0;
    proof {
        assert(text@.skip(0) =~= text@);
        assert(r.deep_view() =~~= Seq::<Seq<char>>::empty());
    }
    while i < n
        invariant
            n == text@.len(),
            start <= i <= n,
            forall|k: int| start <= k < i ==> text@[k] != '\n',
            spec_lines(text@) =~~= r.deep_view() + spec_lines(text@.skip(start as int)),
        decreases n - i,
    {
        if text.get_char(i) == '\n' {
            let line = text.substring_char(start, i).to_owned();
            let ghost dv0 = r.deep_view();
            proof {
                let suf = text@.skip(start as int);
                assert(forall|k: int|
                    0 <= k < i - start ==> suf[k] == text@[k + start] && suf[k] != '\n');
                assert(suf[i - start as int] == '\n');
                lemma_lines_cut(suf, i - start as int);
                assert(suf.take(i - start as int) =~= text@.subrange(start as int, i as int));
                assert(suf.skip(i - start + 1) =~= text@.skip(i + 1));
                assert(dv0.push(line@) + spec_lines(text@.skip(i + 1)) =~~= dv0 + (seq![line@]
                    + spec_lines(text@.skip(i + 1))));
            }
            r.push(line);
            proof {
                assert(r.deep_view() =~~= dv0.push(line@));
            }
            start = i + 1;
        }
        i += 1;
    }
    let line = text.substring_char(start, n).to_owned();
    let ghost dv0 = r.deep_view();
    proof {
        let suf = text@.skip(start as int);
        assert(forall|k: int| 0 <= k < n - start ==> suf[k] == text@[k + start] && suf[k] != '\n');
        lemma_lines_cut(suf, n - start as int);
        assert(suf =~= text@.subrange(start as int, n as int));
        assert(dv0.push(line@) =~~= dv0 + seq![suf]);
    }
    r.push(line);
    proof {
        assert(r.deep_view() =~~= dv0.push(line@));
    }
    r
}

/// Metadata that directive lines accumulate for the next path line.
#[verifier::ext_equal]
pub ghost struct PendingM {
    pub next: Option<Seq<char>>,
    pub no_shuffle: bool,
    pub name: Option<Seq<char>>,
    pub duration: Option<u64>,
}

/// Pending metadata, as the parser carries it between lines.
pub struct Pending {
    pub next: Option<String>,
    pub no_shuffle: bool,
    pub name: Option<String>,
    pub duration: Option<u64>,
}

impl View for Pending {
    type V = PendingM;

    open spec fn view(&self) -> PendingM {
        PendingM {
            next: self.next.deep_view(),
            no_shuffle: self.no_shuffle,
            name: self.name.deep_view(),
            duration: self.duration,
        }
    }
}

/// No metadata pending.
pub open spec fn empty_pending() -> PendingM {
    PendingM { next: None, no_shuffle: false, name: None, duration: None }
}

impl Pending {
    /// No metadata pending.
    pub fn new() -> (r: Pending)
        ensures
            r@ == empty_pending(),
    {
        Pending { next: None, no_shuffle: false, name: None, duration: None }
    }
}

/// A directive line's effect on the pending metadata; `body` is the
/// line after its leading `#`.  An unknown or malformed directive (the
/// header among them) changes nothing.
pub open spec fn apply_directive(body: Seq<char>, pend: PendingM) -> PendingM {
    if trimmed(body) == "EXTNOSHUFFLE"@ {
        PendingM { no_shuffle: true, ..pend }
    } else if spec_has_prefix(body, "EXTNEXT:"@) {
        PendingM { next: Some(body.skip("EXTNEXT:"@.len() as int)), ..pend }
    } else if spec_has_prefix(body, "EXTINF:"@) {
        let rest = body.skip("EXTINF:"@.len() as int);
        match first_idx_of(rest, ',', 0) {
            Some(k) => if rest.take(k).len() > 0 && all_digits(rest.take(k)) && digits_val(
                rest.take(k),
            ) <= u64::MAX {
                PendingM {
                    duration: Some(digits_val(rest.take(k)) as u64),
                    name: Some(rest.skip(k + 1)),
                    ..pend
                }
            } else {
                pend
            },
            None => pend,
        }
    } else {
        pend
    }
}

/// Apply one directive line (after its `#`) to the pending metadata.
fn apply_directive_exec(body: &str, pend: Pending) -> (r: Pending)
    ensures
        r@ == apply_directive(body@, pend@),
{
    let t = trim(body);
    if str_eq(t, "EXTNOSHUFFLE") {
        return Pending { no_shuffle: true, ..pend };
    }
    let n = body.unicode_len();
    let pfx_next = "EXTNEXT:";
    if has_prefix(body, pfx_next) {
        let l = pfx_next.unicode_len();
        let rest = body.substring_char(l, n).to_owned();
        proof {
            assert(rest@ =~= body@.skip("EXTNEXT:"@.len() as int));
        }
        return Pending { next: Some(rest), ..pend };
    }
    let pfx_inf = "EXTINF:";
    if has_prefix(body, pfx_inf) {
        let l = pfx_inf.unicode_len();
        let rest = body.substring_char(l, n);
        proof {
            assert(rest@ =~= body@.skip("EXTINF:"@.len() as int));
        }
        match find_char(rest, ',') {
            Some(k) => {
                proof {
                    lemma_first_idx_of(rest@, ',', 0);
                }
                let ds = rest.substring_char(0, k);
                proof {
                    assert(ds@ =~= rest@.take(k as int));
                }
                match parse_u64(ds) {
                    Some(v) => {
                        let rn = rest.unicode_len();
                        let name = rest.substring_char(k + 1, rn).to_owned();
                        proof {
                            assert(name@ =~= rest@.skip(k + 1));
                        }
                        return Pending { duration: Some(v), name: Some(name), ..pend };
                    },
                    None => {
                        return pend;
                    },
                }
            },
            None => {
                return pend;
            },
        }
    }
    pend
}

/// `~/` at the start of a path line expands to the home directory.
pub open spec fn expand_home(line: Seq<char>, home: Seq<char>) -> Seq<char> {
    if spec_has_prefix(line, "~/"@) {
        home + line.skip(1)
    } else {
        line
    }
}

/// The song one path line registers, given the pending metadata: the
/// pending name wins over the name derived from the path.
pub open spec fn song_from_line(line: Seq<char>, home: Seq<char>, pend: PendingM) -> SongM {
    let path = expand_home(line, home);
    SongM {
        name: match pend.name {
            Some(n) => n,
            None => file_name_of(path),
        },
        path,
        next: pend.next,
        no_shuffle: pend.no_shuffle,
        user_added: true,
        duration: pend.duration,
    }
}

/// A line with its trailing carriage return, if any, dropped.
pub open spec fn logical_line(line: Seq<char>) -> Seq<char> {
    if line.len() > 0 && line.last() == '\r' {
        line.drop_last()
    } else {
        line
    }
}

/// The songs the remaining `lines` register, with `pend` carried in:
/// blank lines are skipped, `#` lines feed the pending metadata, and
/// every other line registers one song and resets the metadata.
pub open spec fn parse_from(lines: Seq<Seq<char>>, home: Seq<char>, pend: PendingM) -> Seq<SongM>
    decreases lines.len(),
{
    if lines.len() == 0 {
        Seq::<SongM>::empty()
    } else {
        let line = logical_line(lines[0]);
        if line.len() == 0 {
            parse_from(lines.drop_first(), home, pend)
        } else if line[0] == '#' {
            parse_from(lines.drop_first(), home, apply_directive(line.drop_first(), pend))
        } else {
            seq![song_from_line(line, home, pend)] + parse_from(
                lines.drop_first(),
                home,
                empty_pending(),
            )
        }
    }
}

/// Every song a playlist text registers, in order.
pub open spec fn parse_playlist_songs(text: Seq<char>, home: Seq<char>) -> Seq<SongM> {
    parse_from(spec_lines(text), home, empty_pending())
}

/// Every parsed song is user-added: the playlist is where the user's
/// songs come from.
pub proof fn lemma_parse_from_user_added(lines: Seq<Seq<char>>, home: Seq<char>, pend: PendingM)
    ensures
        forall|i: int|
            0 <= i < parse_from(lines, home, pend).len() ==> (#[trigger] parse_from(
                lines,
                home,
                pend,
            )[i]).user_added,
    decreases lines.len(),
{
    if lines.len() > 0 {
        let line = logical_line(lines[0]);
        if line.len() == 0 {
            lemma_parse_from_user_added(lines.drop_first(), home, pend);
        } else if line[0] == '#' {
            lemma_parse_from_user_added(
                lines.drop_first(),
                home,
                apply_directive(line.drop_first(), pend),
            );
        } else {
            lemma_parse_from_user_added(lines.drop_first(), home, empty_pending());
        }
    }
}

/// Parse a playlist text against a home directory: the returned songs
/// are exactly what the format's lines describe, in order.
pub fn parse_playlist(text: &str, home: &str) -> (r: Vec<Song>)
    ensures
        r.deep_view() == parse_playlist_songs(text@, home@),
{
    let lines = split_lines(text);
    let mut songs: Vec<Song> = Vec::new();
    let mut pend = Pending::new();
    let n = lines.len();
    let mut i: usize = 0;
    proof {
        assert(lines.deep_view().skip(0) =~~= lines.deep_view());
        assert(songs.deep_view() =~~= Seq::<SongM>::empty());
        assert(parse_playlist_songs(text@, home@) =~= songs.deep_view() + parse_from(
            lines.deep_view().skip(0),
            home@,
            pend@,
        ));
    }
    while i < n
        invariant
            lines.deep_view() == spec_lines(text@),
            n == lines@.len(),
            i <= n,
            parse_playlist_songs(text@, home@) == songs.deep_view() + parse_from(
                lines.deep_view().skip(i as int),
                home@,
                pend@,
            ),
        decreases n - i,
    {
        let ghost rem = lines.deep_view().skip(i as int);
        let ghost pv = pend@;
        proof {
            assert(rem.drop_first() =~~= lines.deep_view().skip(i + 1));
            assert(rem[0] == lines@[i as int]@);
        }
        let line: &str = lines[i].as_str();
        let n0 = line.unicode_len();
        let ln: &str = if n0 > 0 && line.get_char(n0 - 1) == '\r' {
            let cut = line.substring_char(0, n0 - 1);
            proof {
                assert(cut@ =~= logical_line(rem[0]));
            }
            cut
        } else {
            line
        };
        proof {
            assert(ln@ == logical_line(rem[0]));
        }
        let n1 = ln.unicode_len();
        if n1 == 0 {
        } else if ln.get_char(0) == '#' {
            let body = ln.substring_char(1, n1);
            proof {
                assert(body@ =~= logical_line(rem[0]).drop_first());
            }
            pend = apply_directive_exec(body, pend);
        } else {
            let path: String = if has_prefix(ln, "~/") {
                let mut p = home.to_owned();
                p.append(ln.substring_char(1, n1));
                proof {
                    assert(ln@.subrange(1, n1 as int) =~= ln@.skip(1));
                }
                p
            } else {
                ln.to_owned()
            };
            proof {
                assert(path@ == expand_home(ln@, home@));
            }
            let Pending { next, no_shuffle, name, duration } = pend;
            let name_s: String = match name {
                Some(nm) => nm,
                None => derive_name(path.as_str()),
            };
            let song = Song { name: name_s, path, next, no_shuffle, user_added: true, duration };
            proof {
                assert(song@ =~= song_from_line(ln@, home@, pv));
            }
            let ghost dv0 = songs.deep_view();
            songs.push(song);
            pend = Pending::new();
            proof {
                assert(songs.deep_view() =~~= dv0.push(song@));
                assert(dv0.push(song@) + parse_from(rem.drop_first(), home@, empty_pending())
                    =~= dv0 + (seq![song_from_line(ln@, home@, pv)] + parse_from(
                    rem.drop_first(),
                    home@,
                    empty_pending(),
                )));
            }
        }
        i += 1;
    }
    proof {
        assert(lines.deep_view().skip(n as int) =~~= Seq::<Seq<char>>::empty());
        assert(songs.deep_view() + parse_from(
            Seq::<Seq<char>>::empty(),
            home@,
            pend@,
        ) =~= songs.deep_view());
    }
    songs
}

} // verus!
