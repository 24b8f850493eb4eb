//! Where the application keeps its files, and the rules for the names it
//! gives them.

use vstd::prelude::*;
use std::path::PathBuf;
use crate::text::{
    is_white_space, pieces, split_state, text_eq, trim, trim_end_seq, trim_seq, trim_start_seq,
};

verus! {

#[verifier::external_type_specification]
#[verifier::external_body]
pub struct ExPathBuf(PathBuf);

/// The per-user local application-data folder, from
/// `dirs::data_local_dir`. Nothing is stated of the result: it depends on
/// the machine and the environment.
#[verifier::external_body]
fn local_data_dir() -> Option<PathBuf> {
    dirs::data_local_dir()
}

/// A path below a base folder, given as its folder and file names.
pub struct StoragePath {
    pub base: PathBuf,
    pub segments: Vec<String>,
}

impl StoragePath {
    /// The names below the base folder.
    pub open spec fn names(&self) -> Seq<Seq<char>> {
        self.segments@.map_values(|s: String| s@)
    }

    /// The path one level deeper, at `name`.
    pub fn child(self, name: &str) -> (r: StoragePath)
        ensures
            r.base == self.base,
            r.names() == self.names().push(name@),
    {
        let mut segments = self.segments;
        let ghost before = segments@;
        segments.push(String::from_str(name));
        proof {
            assert(segments@.map_values(|s: String| s@) =~= before.map_values(|s: String| s@).push(
                name@,
            ));
        }
        StoragePath { base: self.base, segments }
    }
}

/// The message when the local application-data folder is unknown.
pub open spec fn no_local_app_data_message() -> Seq<char> {
    "Could not resolve Local AppData path"@
}

/// The application's own folder below the local application-data folder
/// `base`, when it is known.
pub fn app_root_in(base: Option<PathBuf>) -> (r: Result<StoragePath, String>)
    ensures
        match r {
            Ok(p) => base == Some(p.base) && p.names() == seq!["TrackLog"@],
            Err(e) => base is None && e@ == no_local_app_data_message(),
        },
{
    match base {
        Some(b) => {
            let p = StoragePath { base: b, segments: Vec::new() };
            proof {
                assert(p.names() =~= Seq::<Seq<char>>::empty());
            }
            let r = p.child("TrackLog");
            assert(r.names() =~= seq!["TrackLog"@]);
            Ok(r)
        },
        None => Err(String::from_str("Could not resolve Local AppData path")),
    }
}

/// The application's own folder: `TrackLog` in the local application-data
/// folder.
pub fn app_root() -> (r: Result<StoragePath, String>)
    ensures
        match r {
            Ok(p) => p.names() == seq!["TrackLog"@],
            Err(e) => e@ == no_local_app_data_message(),
        },
{
    app_root_in(local_data_dir())
}

/// The folder of the catalog's data.
pub fn data_dir() -> (r: Result<StoragePath, String>)
    ensures
        match r {
            Ok(p) => p.names() == seq!["TrackLog"@, "data"@],
            Err(e) => e@ == no_local_app_data_message(),
        },
{
    let p = app_root()?;
    let r = p.child("data");
    assert(r.names() =~= seq!["TrackLog"@, "data"@]);
    Ok(r)
}

/// The folder of the release images.
pub fn releases_image_dir() -> (r: Result<StoragePath, String>)
    ensures
        match r {
            Ok(p) => p.names() == seq!["TrackLog"@, "data"@, "images"@, "releases"@],
            Err(e) => e@ == no_local_app_data_message(),
        },
{
    let p = data_dir()?;
    let r = p.child("images").child("releases");
    assert(r.names() =~= seq!["TrackLog"@, "data"@, "images"@, "releases"@]);
    Ok(r)
}

/// The catalog database file.
pub fn db_path() -> (r: Result<StoragePath, String>)
    ensures
        match r {
            Ok(p) => p.names() == seq!["TrackLog"@, "data"@, "catalog.db"@],
            Err(e) => e@ == no_local_app_data_message(),
        },
{
    let p = data_dir()?;
    let r = p.child("catalog.db");
    assert(r.names() =~= seq!["TrackLog"@, "data"@, "catalog.db"@]);
    Ok(r)
}

/// The settings file.
pub fn settings_path() -> (r: Result<StoragePath, String>)
    ensures
        match r {
            Ok(p) => p.names() == seq!["TrackLog"@, "settings.json"@],
            Err(e) => e@ == no_local_app_data_message(),
        },
{
    let p = app_root()?;
    let r = p.child("settings.json");
    assert(r.names() =~= seq!["TrackLog"@, "settings.json"@]);
    Ok(r)
}

/// The file that keeps the Google Drive tokens.
pub fn google_tokens_path() -> (r: Result<StoragePath, String>)
    ensures
        match r {
            Ok(p) => p.names() == seq!["TrackLog"@, "data"@, "google_drive_tokens.json"@],
            Err(e) => e@ == no_local_app_data_message(),
        },
{
    let p = data_dir()?;
    let r = p.child("google_drive_tokens.json");
    assert(r.names() =~= seq!["TrackLog"@, "data"@, "google_drive_tokens.json"@]);
    Ok(r)
}

/// A character kept as is in a file name: an ASCII letter or digit, `-`
/// or `_`.
pub open spec fn is_file_name_char(c: char) -> bool {
    let u = c as int;
    (48 <= u <= 57) || (65 <= u <= 90) || (97 <= u <= 122) || c == '-' || c == '_'
}

/// A name with every character outside `is_file_name_char` replaced by `_`.
pub open spec fn sanitized(s: Seq<char>) -> Seq<char> {
    s.map_values(|c: char| if is_file_name_char(c) { c } else { '_' })
}

/// A name safe to use as a file name (see `sanitized`).
pub fn sanitize_filename(name: &str) -> (r: String)
    ensures
        r@ == sanitized(name@),
{
    proof {
        reveal_strlit("_");
    }
    let n = name.unicode_len();
    let mut r = String::new();
    let mut i: usize = 0;
    while i < n
        invariant
            n == name@.len(),
            i <= n,
            r@ == sanitized(name@.take(i as int)),
            "_"@ == seq!['_'],
        decreases n - i,
    {
        let c = name.get_char(i);
        let u = c as u32;
        let keep = (48 <= u && u <= 57) || (65 <= u && u <= 90) || (97 <= u && u <= 122) || c
            == '-' || c == '_';
        if keep {
            r.append(name.substring_char(i, i + 1));
        } else {
            r.append("_");
        }
        assert(r@ =~= sanitized(name@.take(i + 1)));
        i = i + 1;
    }
    assert(name@.take(n as int) =~= name@);
    r
}

/// Sanitizing a sanitized name changes nothing, and keeps its length.
pub proof fn lemma_sanitize_idempotent(s: Seq<char>)
    ensures
        sanitized(sanitized(s)) == sanitized(s),
        sanitized(s).len() == s.len(),
        forall|i: int| 0 <= i < s.len() ==> is_file_name_char(#[trigger] sanitized(s)[i]),
{
    assert(sanitized(sanitized(s)) =~= sanitized(s));
}

/// The lower-case form of a text under Unicode rules, as
/// `str::to_lowercase` computes it.
pub uninterp spec fn lowercase(s: Seq<char>) -> Seq<char>;

/// `str::to_lowercase`: the text in lower case, following Unicode's case
/// mapping. The result is given the name `lowercase`; nothing more is
/// stated of it.
#[verifier::external_body]
fn to_lowercase(s: &str) -> (r: String)
    ensures
        r@ == lowercase(s@),
{
    s.to_lowercase()
}

/// The image file extensions a release image may have (matched in lower
/// case).
pub open spec fn is_image_extension(ext: Seq<char>) -> bool {
    let l = lowercase(ext);
    l == "jpg"@ || l == "jpeg"@ || l == "png"@ || l == "webp"@
}

/// Whether a file with this extension (none when the file name has none)
/// may be used as a release image.
pub fn allowed_image_extension(extension: Option<&str>) -> (r: bool)
    ensures
        r == match extension {
            Some(e) => is_image_extension(e@),
            None => false,
        },
{
    match extension {
        Some(e) => {
            let l = to_lowercase(e);
            let s = l.as_str();
            text_eq(s, "jpg") || text_eq(s, "jpeg") || text_eq(s, "png") || text_eq(s, "webp")
        },
        None => false,
    }
}

/// The file name under which a release's image is kept: the release's
/// sanitized internal code with the source's extension in lower case.
pub fn managed_release_image_name(release_internal_code: &str, extension: Option<&str>) -> (r:
    Result<String, String>)
    ensures
        match r {
            Ok(name) => extension matches Some(e) && name@ == sanitized(release_internal_code@)
                + seq!['.'] + lowercase(e@),
            Err(msg) => extension is None && msg@ == "Image file has no valid extension"@,
        },
{
    match extension {
        Some(e) => {
            proof {
                reveal_strlit(".");
            }
            let mut name = sanitize_filename(release_internal_code);
            name.append(".");
            let l = to_lowercase(e);
            name.append(l.as_str());
            Ok(name)
        },
        None => Err(String::from_str("Image file has no valid extension")),
    }
}

/// The token that stands for the local application-data folder in stored
/// paths.
pub open spec fn local_app_data_token() -> Seq<char> {
    "%LocalAppData%"@
}

/// A character in ASCII lower case (other characters unchanged), as a code
/// point.
pub open spec fn ascii_lower(c: char) -> int {
    let u = c as int;
    if 65 <= u <= 90 {
        u + 32
    } else {
        u
    }
}

/// The text starts with the token, in any ASCII case.
pub open spec fn starts_with_token(s: Seq<char>) -> bool {
    let t = "%localappdata%"@;
    s.len() >= t.len() && forall|i: int| 0 <= i < t.len() ==> ascii_lower(#[trigger] s[i]) == t[i] as int
}

/// A separator of path components in stored paths.
pub open spec fn is_path_separator(c: char) -> bool {
    c == '\\' || c == '/'
}

/// The non-empty components of a text split at path separators.
pub open spec fn path_components(s: Seq<char>) -> Seq<Seq<char>> {
    pieces(s, |c: char| is_path_separator(c))
}

/// A stored path resolved: taken literally, or below the local
/// application-data folder.
pub enum ResolvedPath {
    Plain(String),
    UnderLocalAppData(StoragePath),
}

/// Resolves a stored path against the local application-data folder
/// `local` (when known): a path that starts with the token (in any ASCII
/// case) names the components after it below that folder; any other path,
/// trimmed, is taken literally.
pub fn resolve_portable_path_in(stored: &str, local: Option<PathBuf>) -> (r: ResolvedPath)
    ensures
        ({
            let t = trim_seq(stored@);
            if starts_with_token(t) && local is Some {
                r matches ResolvedPath::UnderLocalAppData(p) && local == Some(p.base) && p.names()
                    == path_components(t.skip(14))
            } else {
                r matches ResolvedPath::Plain(p) && p@ == t
            }
        }),
{
    proof {
        reveal_strlit("%localappdata%");
    }
    let trimmed = trim(stored);
    let t = trimmed.as_str();
    let n = t.unicode_len();
    let token = "%localappdata%";
    let mut matches = n >= 14;
    if matches {
        let mut i: usize = 0;
        while i < 14
            invariant
                n == t@.len(),
                n >= 14,
                token@ == "%localappdata%"@,
                token@.len() == 14,
                i <= 14,
                matches == forall|k: int| 0 <= k < i ==> ascii_lower(#[trigger] t@[k]) == token@[k] as int,
            decreases 14 - i,
        {
            let c = t.get_char(i);
            let u = c as u32;
            let l = if 65 <= u && u <= 90 {
                u + 32
            } else {
                u
            };
            let want = token.get_char(i) as u32;
            let ghost before = matches;
            matches = matches && l == want;
            proof {
                if before && !matches {
                    assert(!(ascii_lower(t@[i as int]) == token@[i as int] as int));
                }
            }
            i = i + 1;
        }
    }
    if !matches {
        return ResolvedPath::Plain(trimmed);
    }
    let base = match local {
        Some(b) => b,
        None => {
            return ResolvedPath::Plain(trimmed);
        },
    };
    let ghost suffix = t@.skip(14);
    let mut segments: Vec<String> = Vec::new();
    let mut start: usize = 14;
    let mut i: usize = 14;
    while i < n
        invariant
            n == t@.len(),
            14 <= start <= i <= n,
            suffix == t@.skip(14),
            split_state(t@.subrange(14, i as int), |c: char| is_path_separator(c)) == (segments@.map_values(|x: String| x@), t@.subrange(start as int, i as int)),
        decreases n - i,
    {
        assert(t@.subrange(14, i + 1).drop_last() =~= t@.subrange(14, i as int));
        let c = t.get_char(i);
        if c == '\\' || c == '/' {
            if i > start {
                let ghost before = segments@;
                segments.push(String::from_str(t.substring_char(start, i)));
                proof {
                    assert(segments@.map_values(|x: String| x@) =~= before.map_values(|x: String| x@).push(t@.subrange(start as int, i as int)));
                }
            }
            start = i + 1;
            assert(t@.subrange(start as int, i + 1) =~= Seq::<char>::empty());
        } else {
            assert(t@.subrange(start as int, i + 1) =~= t@.subrange(start as int, i as int).push(c));
        }
        i = i + 1;
    }
    assert(t@.subrange(14, n as int) =~= suffix);
    if n > start {
        let ghost before = segments@;
        segments.push(String::from_str(t.substring_char(start, n)));
        proof {
            assert(segments@.map_values(|x: String| x@) =~= before.map_values(|x: String| x@).push(t@.subrange(start as int, n as int)));
        }
    }
    ResolvedPath::UnderLocalAppData(StoragePath { base, segments })
}

/// Resolves a stored path (see `resolve_portable_path_in`) against this
/// machine's local application-data folder.
pub fn resolve_portable_local_appdata_path(stored: &str) -> (r: ResolvedPath)
    ensures
        ({
            let t = trim_seq(stored@);
            &&& !starts_with_token(t) ==> (r matches ResolvedPath::Plain(p) && p@ == t)
            &&& (r matches ResolvedPath::UnderLocalAppData(p) ==> starts_with_token(t) && p.names()
                == path_components(t.skip(14)))
            &&& (r matches ResolvedPath::Plain(p) ==> p@ == t)
        }),
{
    resolve_portable_path_in(stored, local_data_dir())
}

/// The stored form of a path that lies `rel` below the local
/// application-data folder: the token, then the relative part with
/// backslashes between its components.
pub open spec fn portable_form(rel: Seq<char>) -> Seq<char> {
    if rel.len() == 0 {
        local_app_data_token()
    } else {
        local_app_data_token() + seq!['\\'] + rel.map_values(
            |c: char| if c == '/' { '\\' } else { c },
        )
    }
}

proof fn lemma_trim_unchanged(s: Seq<char>)
    requires
        s.len() > 0,
        !is_white_space(s[0]),
        !is_white_space(s.last()),
    ensures
        trim_seq(s) == s,
{
    assert(trim_start_seq(s) == s);
    assert(trim_end_seq(s) == s);
}

proof fn lemma_split_after_separator(s: Seq<char>)
    ensures
        split_state(seq!['\\'] + s, |c: char| is_path_separator(c)) == split_state(
            s,
            |c: char| is_path_separator(c),
        ),
    decreases s.len(),
{
    let x = seq!['\\'];
    if s.len() == 0 {
        assert(x + s =~= x);
        assert(x.drop_last() =~= Seq::<char>::empty());
        assert(split_state(x.drop_last(), |c: char| is_path_separator(c)) == (
            Seq::<Seq<char>>::empty(),
            Seq::<char>::empty(),
        ));
        assert(is_path_separator(x.last()));
    } else {
        lemma_split_after_separator(s.drop_last());
        assert((x + s).drop_last() =~= x + s.drop_last());
        assert((x + s).last() == s.last());
    }
}

proof fn lemma_split_with_backslashes(s: Seq<char>)
    ensures
        split_state(
            s.map_values(|c: char| if c == '/' { '\\' } else { c }),
            |c: char| is_path_separator(c),
        ) == split_state(s, |c: char| is_path_separator(c)),
    decreases s.len(),
{
    let m = s.map_values(|c: char| if c == '/' { '\\' } else { c });
    if s.len() > 0 {
        lemma_split_with_backslashes(s.drop_last());
        assert(m.drop_last() =~= s.drop_last().map_values(|c: char| if c == '/' { '\\' } else { c }));
        assert(m.last() == if s.last() == '/' { '\\' } else { s.last() });
    }
}

/// A path written in portable form reads back, once trimmed, as starting
/// with the token and naming the same components below the local
/// application-data folder. A relative part that ends in whitespace is
/// left out: trimming drops that whitespace.
pub proof fn lemma_portable_round_trip(rel: Seq<char>)
    requires
        rel.len() == 0 || !is_white_space(rel.last()),
    ensures
        starts_with_token(trim_seq(portable_form(rel))),
        path_components(trim_seq(portable_form(rel)).skip(14)) == path_components(rel),
{
    reveal_strlit("%LocalAppData%");
    reveal_strlit("%localappdata%");
    let tok = local_app_data_token();
    let p = portable_form(rel);
    let m = rel.map_values(|c: char| if c == '/' { '\\' } else { c });
    assert(tok.len() == 14);
    if rel.len() == 0 {
        assert(p.last() == '%');
    } else {
        assert(p.last() == m.last());
    }
    assert(p[0] == '%');
    lemma_trim_unchanged(p);
    assert forall|i: int| 0 <= i < 14 implies p[i] == tok[i] by {}
    assert(starts_with_token(p));
    if rel.len() == 0 {
        assert(p.skip(14) =~= Seq::<char>::empty());
        assert(rel =~= Seq::<char>::empty());
    } else {
        assert(p.skip(14) =~= seq!['\\'] + m);
        lemma_split_after_separator(m);
        lemma_split_with_backslashes(rel);
    }
}

/// A path in the form that survives a move to another machine: below the
/// token when the path lies in the local application-data folder (given
/// by `relative`, its part below that folder), else `path_text` as is.
/// Components are joined with backslashes.
pub fn to_portable_local_appdata_path(relative: Option<&str>, path_text: &str) -> (r: String)
    ensures
        r@ == match relative {
            Some(rel) => portable_form(rel@),
            None => path_text@,
        },
{
    match relative {
        None => String::from_str(path_text),
        Some(rel) => {
            proof {
                reveal_strlit("\\");
            }
            let n = rel.unicode_len();
            let mut r = String::from_str("%LocalAppData%");
            if n == 0 {
                return r;
            }
            r.append("\\");
            let ghost head = r@;
            let mut i: usize = 0;
            while i < n
                invariant
                    n == rel@.len(),
                    i <= n,
                    "\\"@ == seq!['\\'],
                    r@ == head + rel@.take(i as int).map_values(|c: char| if c == '/' { '\\' } else { c }),
                decreases n - i,
            {
                let c = rel.get_char(i);
                if c == '/' {
                    r.append("\\");
                } else {
                    r.append(rel.substring_char(i, i + 1));
                }
                assert(rel@.take(i + 1).map_values(|c: char| if c == '/' { '\\' } else { c }) =~= rel@.take(i as int).map_values(|c: char| if c == '/' { '\\' } else { c }).push(if c == '/' { '\\' } else { c }));
                i = i + 1;
            }
            assert(rel@.take(n as int) =~= rel@);
            r
        },
    }
}

} // verus!
