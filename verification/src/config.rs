use crate::error::AppError;
use vstd::prelude::*;
use vstd::string::StrSliceExecFns;
use vstd::string::StringExecFns;

verus! {

/// A resolved configuration: the directory path where the target
/// application is installed. The empty string is the only "unresolved"
/// marker; the field is never optional.
pub struct Config {
    pub game_path: String,
}

/// The key of the single recognized field of the persisted file, with its
/// separator.
pub open spec fn config_key() -> Seq<char> {
    "game_path: "@
}

/// Whether a path can stand in the persisted line as it is: non-empty, no
/// newline, and not opening with a double quote (which would read as a
/// quoted value). Every other path is written quoted, with escapes.
pub open spec fn plain_value(path: Seq<char>) -> bool {
    path.len() > 0 && (forall|i: int| 0 <= i < path.len() ==> path[i] != '\n') && path[0] != '"'
}

/// How one character is written inside a quoted value: backslash, double
/// quote and newline get a backslash escape, every other character stands
/// as it is.
pub open spec fn escape_unit(c: char) -> Seq<char> {
    if c == '\\' {
        seq!['\\', '\\']
    } else if c == '"' {
        seq!['\\', '"']
    } else if c == '\n' {
        seq!['\\', 'n']
    } else {
        seq![c]
    }
}

/// A value written with escapes, character by character.
pub open spec fn escaped(s: Seq<char>) -> Seq<char>
    decreases s.len(),
{
    if s.len() == 0 {
        Seq::empty()
    } else {
        escape_unit(s[0]) + escaped(s.drop_first())
    }
}

/// The character an escape pair stands for.
pub open spec fn unescape_unit(c: char) -> char {
    if c == 'n' {
        '\n'
    } else {
        c
    }
}

/// Whether a character sequence is a well-formed escaped value: every
/// backslash opens one of the three escape pairs, and no bare double quote
/// occurs.
pub open spec fn valid_escaped(s: Seq<char>) -> bool
    decreases s.len(),
{
    if s.len() == 0 {
        true
    } else if s[0] == '\\' {
        s.len() >= 2 && (s[1] == '\\' || s[1] == '"' || s[1] == 'n') && valid_escaped(s.skip(2))
    } else if s[0] == '"' {
        false
    } else {
        valid_escaped(s.skip(1))
    }
}

/// The value an escaped character sequence stands for.
pub open spec fn unescaped(s: Seq<char>) -> Seq<char>
    decreases s.len(),
{
    if s.len() == 0 {
        Seq::empty()
    } else if s[0] == '\\' && s.len() >= 2 {
        seq![unescape_unit(s[1])] + unescaped(s.skip(2))
    } else {
        seq![s[0]] + unescaped(s.skip(1))
    }
}

/// The written form of a value in the persisted line: the path itself where
/// it can be read back unambiguously, a double-quoted escaped form
/// otherwise. In particular the empty path is written `""`.
pub open spec fn value_repr(path: Seq<char>) -> Seq<char> {
    if plain_value(path) {
        path
    } else {
        seq!['"'] + escaped(path) + seq!['"']
    }
}

/// The full persisted text for an installation path: the one recognized
/// field on one line. A non-empty path's line ends with a newline; the
/// empty path's text is exactly the bare sentinel line `game_path: ""`.
pub open spec fn serialized(path: Seq<char>) -> Seq<char> {
    if path.len() == 0 {
        config_key() + value_repr(path)
    } else {
        config_key() + value_repr(path) + "\n"@
    }
}

/// A persisted text with at most one trailing newline stripped.
pub open spec fn line_body(text: Seq<char>) -> Seq<char> {
    if text.len() > 0 && text.last() == '\n' {
        text.drop_last()
    } else {
        text
    }
}

/// What a written value means: a double-quoted well-formed escaped value
/// unescapes; a value not opening with a quote stands for itself; a value
/// opening with a quote but not well-formed is malformed.
pub open spec fn value_of(v: Seq<char>) -> Option<Seq<char>> {
    if v.len() >= 2 && v[0] == '"' && v.last() == '"' && valid_escaped(
        v.subrange(1, v.len() - 1),
    ) {
        Some(unescaped(v.subrange(1, v.len() - 1)))
    } else if v.len() > 0 && v[0] == '"' {
        None
    } else {
        Some(v)
    }
}

/// What a persisted text means: `Some(path)` exactly when the text is one
/// well-formed configuration line (with or without its trailing newline),
/// `None` on any malformed text.
pub open spec fn parsed(text: Seq<char>) -> Option<Seq<char>> {
    let body = line_body(text);
    if body.len() >= config_key().len() && body.subrange(0, config_key().len() as int)
        == config_key() && (forall|i: int| 0 <= i < body.len() ==> body[i] != '\n') {
        value_of(body.subrange(config_key().len() as int, body.len() as int))
    } else {
        None
    }
}

/// Relies on `String::push`: appends the given character to the end of the
/// string.
#[verifier::external_body]
fn push_char(s: &mut String, c: char)
    ensures
        final(s)@ == old(s)@.push(c),
{
    s.push(c);
}

/// Whether the path can be written plainly, without quoting.
fn is_plain_value(path: &str) -> (b: bool)
    ensures
        b == plain_value(path@),
{
    let n = path.unicode_len();
    if n == 0 {
        return false;
    }
    if path.get_char(0) == '"' {
        return false;
    }
    let mut i: usize = 0;
    while i < n
        invariant
            0 <= i <= n,
            n == path@.len(),
            forall|j: int| 0 <= j < i ==> path@[j] != '\n',
        decreases n - i,
    {
        if path.get_char(i) == '\n' {
            proof {
                assert(!plain_value(path@)) by {
                    assert(path@[i as int] == '\n');
                }
            }
            return false;
        }
        i += 1;
    }
    true
}

proof fn lemma_escaped_snoc(s: Seq<char>, c: char)
    ensures
        escaped(s.push(c)) == escaped(s) + escape_unit(c),
    decreases s.len(),
{
    if s.len() == 0 {
        assert(s.push(c)[0] == c);
        assert(s.push(c).drop_first() =~= Seq::<char>::empty());
        assert(escaped(s.push(c)) == escape_unit(c) + escaped(Seq::<char>::empty()));
        assert(escaped(s.push(c)) =~= escaped(s) + escape_unit(c));
    } else {
        assert(s.push(c)[0] == s[0]);
        assert(s.push(c).drop_first() =~= s.drop_first().push(c));
        lemma_escaped_snoc(s.drop_first(), c);
        assert(escaped(s.push(c)) =~= escaped(s) + escape_unit(c));
    }
}

/// An escaped value is well formed, unescapes back to the value it was made
/// from, and contains no newline (so a quoted value always fits on one
/// line).
proof fn lemma_escaped_props(s: Seq<char>)
    ensures
        valid_escaped(escaped(s)),
        unescaped(escaped(s)) == s,
        forall|i: int| 0 <= i < escaped(s).len() ==> escaped(s)[i] != '\n',
    decreases s.len(),
{
    if s.len() == 0 {
        assert(unescaped(escaped(s)) =~= s);
    } else {
        lemma_escaped_props(s.drop_first());
        let c = s[0];
        let u = escape_unit(c);
        let rest = escaped(s.drop_first());
        let e = escaped(s);
        assert(e == u + rest);
        if c == '\\' || c == '"' || c == '\n' {
            assert(e[0] == '\\');
            assert(e[1] == u[1]);
            assert(e.skip(2) =~= rest);
            assert(unescape_unit(u[1]) == c);
            assert(unescaped(e) =~= s);
        } else {
            assert(e[0] == c);
            assert(e.skip(1) =~= rest);
            assert(unescaped(e) =~= s);
        }
        assert forall|i: int| 0 <= i < e.len() implies e[i] != '\n' by {
            if i >= u.len() {
                assert(e[i] == rest[i - u.len()]);
            }
        }
    }
}

/// Appends the escaped form of `path` to `out`.
#[verifier::loop_isolation(false)]
fn append_escaped(out: &mut String, path: &str)
    ensures
        final(out)@ == old(out)@ + escaped(path@),
{
    proof {
        reveal_strlit("\\\\");
        reveal_strlit("\\\"");
        reveal_strlit("\\n");
        assert(path@.subrange(0, 0) =~= Seq::<char>::empty());
        assert(out@ =~= out@ + escaped(path@.subrange(0, 0)));
    }
    let n = path.unicode_len();
    let mut i: usize = 0;
    while i < n
        invariant
            0 <= i <= n,
            n == path@.len(),
            out@ == old(out)@ + escaped(path@.subrange(0, i as int)),
        decreases n - i,
    {
        let c = path.get_char(i);
        if c == '\\' {
            out.append("\\\\");
        } else if c == '"' {
            out.append("\\\"");
        } else if c == '\n' {
            out.append("\\n");
        } else {
            push_char(out, c);
        }
        proof {
            assert(path@.subrange(0, i as int).push(c) =~= path@.subrange(0, i as int + 1));
            lemma_escaped_snoc(path@.subrange(0, i as int), c);
            assert(out@ =~= old(out)@ + escaped(path@.subrange(0, i as int + 1)));
        }
        i += 1;
    }
    proof {
        assert(path@.subrange(0, n as int) =~= path@);
    }
}

/// Serializes an installation path to the persisted one-line format.
pub fn serialize_config(path: &str) -> (s: String)
    ensures
        s@ == serialized(path@),
{
    proof {
        reveal_strlit("\"\"");
        reveal_strlit("\"");
    }
    let mut s = String::from_str("game_path: ");
    if is_plain_value(path) {
        s.append(path);
        s.append("\n");
        proof {
            assert(s@ =~= serialized(path@));
        }
    } else if path.unicode_len() == 0 {
        s.append("\"\"");
        proof {
            assert(value_repr(path@) =~= "\"\""@);
            assert(s@ =~= serialized(path@));
        }
    } else {
        s.append("\"");
        append_escaped(&mut s, path);
        s.append("\"");
        s.append("\n");
        proof {
            assert(value_repr(path@) =~= seq!['"'] + escaped(path@) + seq!['"']);
            assert(s@ =~= serialized(path@));
        }
    }
    s
}

/// Every path round-trips: its serialized line parses back to exactly that
/// path, whatever characters it holds.
pub proof fn lemma_parse_serialize(path: Seq<char>)
    ensures
        parsed(serialized(path)) == Some(path),
{
    reveal_strlit("game_path: ");
    reveal_strlit("\n");
    let t = serialized(path);
    let k = config_key().len() as int;
    if plain_value(path) {
        assert(t.last() == '\n');
        let body = line_body(t);
        assert(body =~= config_key() + path);
        assert(body.subrange(0, k) =~= config_key());
        assert(forall|i: int| 0 <= i < body.len() ==> body[i] != '\n');
        let v = body.subrange(k, body.len() as int);
        assert(v =~= path);
        assert(value_of(v) == Some(path));
    } else if path.len() == 0 {
        assert(value_repr(path) =~= seq!['"', '"']);
        assert(t.last() == '"');
        let body = line_body(t);
        assert(body =~= config_key() + seq!['"', '"']);
        assert(body.subrange(0, k) =~= config_key());
        assert(forall|i: int| 0 <= i < body.len() ==> body[i] != '\n');
        let v = body.subrange(k, body.len() as int);
        assert(v =~= seq!['"', '"']);
        assert(v.subrange(1, v.len() - 1) =~= Seq::<char>::empty());
        assert(unescaped(Seq::<char>::empty()) =~= path);
        assert(value_of(v) == Some(path));
    } else {
        lemma_escaped_props(path);
        let e = escaped(path);
        assert(t.last() == '\n');
        let body = line_body(t);
        assert(body =~= config_key() + seq!['"'] + e + seq!['"']);
        assert(body.subrange(0, k) =~= config_key());
        assert forall|i: int| 0 <= i < body.len() implies body[i] != '\n' by {
            if k + 1 <= i < body.len() - 1 {
                assert(body[i] == e[i - k - 1]);
            }
        }
        let v = body.subrange(k, body.len() as int);
        assert(v =~= seq!['"'] + e + seq!['"']);
        assert(v[0] == '"');
        assert(v.last() == '"');
        assert(v.subrange(1, v.len() - 1) =~= e);
        assert(value_of(v) == Some(path));
    }
}

/// Parses a persisted text: `Some` with the stored path exactly when the
/// text is one well-formed configuration line, `None` otherwise.
#[verifier::loop_isolation(false)]
#[verifier::rlimit(60)]
pub fn parse_config(text: &str) -> (r: Option<String>)
    ensures
        r matches Some(p) ==> parsed(text@) == Some(p@),
        r is None ==> parsed(text@) is None,
{
    proof {
        reveal_strlit("game_path: ");
        reveal_strlit("\n");
        reveal_strlit("\\");
        reveal_strlit("\"");
    }
    let n = text.unicode_len();
    let b: usize = if n > 0 && text.get_char(n - 1) == '\n' {
        n - 1
    } else {
        n
    };
    proof {
        assert(line_body(text@) =~= text@.subrange(0, b as int));
    }
    let ghost body = text@.subrange(0, b as int);
    if b < 11 {
        return None;
    }
    let key: &str = "game_path: ";
    let mut i: usize = 0;
    while i < 11
        invariant
            0 <= i <= 11,
            b >= 11,
            b <= n,
            n == text@.len(),
            body == text@.subrange(0, b as int),
            key@ == config_key(),
            config_key().len() == 11,
            forall|j: int| 0 <= j < i ==> text@[j] == config_key()[j],
        decreases 11 - i,
    {
        if text.get_char(i) != key.get_char(i) {
            proof {
                assert(body.subrange(0, 11)[i as int] != config_key()[i as int]);
            }
            return None;
        }
        i += 1;
    }
    proof {
        assert(body.subrange(0, 11) =~= config_key());
    }
    let mut j: usize = 11;
    while j < b
        invariant
            11 <= j <= b,
            b <= n,
            n == text@.len(),
            body == text@.subrange(0, b as int),
            config_key().len() == 11,
            body.subrange(0, 11) == config_key(),
            forall|m: int| 11 <= m < j ==> text@[m] != '\n',
        decreases b - j,
    {
        if text.get_char(j) == '\n' {
            proof {
                assert(!(forall|m: int| 0 <= m < body.len() ==> body[m] != '\n')) by {
                    assert(body[j as int] == '\n');
                }
            }
            return None;
        }
        j += 1;
    }
    proof {
        assert forall|m: int| 0 <= m < body.len() implies body[m] != '\n' by {
            if m < 11 {
                assert(body[m] == config_key()[m]);
            }
        }
    }
    let ghost v = body.subrange(11, b as int);
    if b == 11 {
        proof {
            assert(v =~= Seq::<char>::empty());
            assert(parsed(text@) == Some(v));
        }
        return Some(String::new());
    }
    if text.get_char(11) != '"' {
        let mid = text.substring_char(11, b);
        let p = String::from_str(mid);
        proof {
            assert(v =~= text@.subrange(11, b as int));
            assert(v[0] != '"');
            assert(parsed(text@) == Some(p@));
        }
        return Some(p);
    }
    // A quoted value: at least the two quotes, closing quote last, and a
    // well-formed escaped middle.
    if b < 13 {
        proof {
            assert(v[0] == '"');
            assert(v.len() < 2);
        }
        return None;
    }
    if text.get_char(b - 1) != '"' {
        proof {
            assert(v[0] == '"');
            assert(v.last() == text@[b - 1]);
        }
        return None;
    }
    let ghost mid = text@.subrange(12, b - 1 as int);
    proof {
        assert(v[0] == text@[11]);
        assert(v.last() == text@[b - 1]);
        assert(v.len() == b - 11);
        assert(v.subrange(1, v.len() - 1) =~= mid);
    }
    let mut out = String::new();
    let mut k: usize = 12;
    proof {
        assert(out@ + unescaped(mid) =~= unescaped(mid));
    }
    while k < b - 1
        invariant
            12 <= k <= b - 1,
            13 <= b <= n,
            n == text@.len(),
            mid == text@.subrange(12, b - 1 as int),
            body == text@.subrange(0, b as int),
            valid_escaped(mid) == valid_escaped(text@.subrange(k as int, b - 1 as int)),
            unescaped(mid) == out@ + unescaped(text@.subrange(k as int, b - 1 as int)),
        decreases b - 1 - k,
    {
        let ghost rest = text@.subrange(k as int, b - 1 as int);
        proof {
            assert(rest[0] == text@[k as int]);
        }
        let c = text.get_char(k);
        if c == '"' {
            proof {
                assert(!valid_escaped(rest));
            }
            return None;
        }
        if c == '\\' {
            if k + 1 >= b - 1 {
                proof {
                    assert(rest.len() < 2);
                    assert(!valid_escaped(rest));
                }
                return None;
            }
            proof {
                assert(rest[1] == text@[k as int + 1]);
                assert(rest.skip(2) =~= text@.subrange(k as int + 2, b - 1 as int));
            }
            let d = text.get_char(k + 1);
            let ghost prev = out@;
            if d == '\\' {
                out.append("\\");
            } else if d == '"' {
                out.append("\"");
            } else if d == 'n' {
                out.append("\n");
            } else {
                proof {
                    assert(!valid_escaped(rest));
                }
                return None;
            }
            proof {
                assert(out@ =~= prev + seq![unescape_unit(d)]);
                assert(unescaped(rest) =~= seq![unescape_unit(d)] + unescaped(
                    text@.subrange(k as int + 2, b - 1 as int),
                ));
                assert(unescaped(mid) =~= out@ + unescaped(
                    text@.subrange(k as int + 2, b - 1 as int),
                ));
            }
            k += 2;
        } else {
            push_char(&mut out, c);
            proof {
                assert(rest.skip(1) =~= text@.subrange(k as int + 1, b - 1 as int));
                assert(unescaped(rest) =~= seq![c] + unescaped(
                    text@.subrange(k as int + 1, b - 1 as int),
                ));
            }
            k += 1;
        }
    }
    proof {
        assert(text@.subrange(k as int, b - 1 as int) =~= Seq::<char>::empty());
        assert(unescaped(mid) =~= out@);
        assert(v[0] == '"');
        assert(v.last() == text@[b - 1]);
        assert(v.last() == '"');
        assert(v.subrange(1, v.len() - 1) =~= mid);
        assert(parsed(text@) == Some(out@));
    }
    Some(out)
}

/// The executable file name appended to a discovered installation
/// directory.
pub open spec fn exe_suffix() -> Seq<char> {
    "\\VRChat.exe"@
}

/// Appends the well-known executable name to a discovered installation
/// directory, forming a full executable path.
pub fn install_path_from_dir(dir: &str) -> (p: String)
    ensures
        p@ == dir@ + exe_suffix(),
{
    let mut p = String::from_str(dir);
    p.append("\\VRChat.exe");
    p
}

/// Maps the outcome of the platform discovery lookup to a result: the full
/// executable path where the lookup found an installation directory, a
/// discovery error where it found none. The lookup itself (a registry read
/// on platforms that have one, always absent elsewhere) is performed by the
/// unverified driver, which hands its outcome in as `dir`.
pub fn load_registry_vrc_install_path(dir: Option<String>) -> (r: Result<String, AppError>)
    ensures
        dir matches Some(d) ==> r matches Ok(p) && p@ == d@ + exe_suffix(),
        dir is None ==> r == Err::<String, AppError>(AppError::DiscoveryError),
{
    match dir {
        Some(d) => Ok(install_path_from_dir(d.as_str())),
        None => Err(AppError::DiscoveryError),
    }
}

/// The text of an optional file, as a sequence of characters.
pub open spec fn text_of(o: Option<String>) -> Option<Seq<char>> {
    match o {
        Some(s) => Some(s@),
        None => None,
    }
}

/// The three-tier fallback, as a total function: a present and parseable
/// file wins outright (whatever discovery holds); otherwise a discovered
/// installation directory, with the executable name appended; otherwise the
/// empty path. No input yields an error.
pub open spec fn resolve_spec(file: Option<Seq<char>>, discovery: Option<Seq<char>>) -> Seq<
    char,
> {
    if file is Some && parsed(file->0) is Some {
        parsed(file->0)->0
    } else if discovery is Some {
        discovery->0 + exe_suffix()
    } else {
        Seq::empty()
    }
}

/// A model of the persistence layer: the content of the configuration file
/// at its fixed storage location, or `None` where no readable file exists.
/// The unverified driver keeps this in step with the real file: it reads
/// the file into `from_file` and writes the text `persist` returns as the
/// file's entire new content.
pub struct ConfigStore {
    pub file: Option<String>,
}

impl ConfigStore {
    /// A store whose file is what was read from the fixed location (`None`
    /// where the file is absent or unreadable).
    pub fn from_file(file: Option<String>) -> (s: Self)
        ensures
            text_of(s.file) == text_of(file),
    {
        ConfigStore { file }
    }

    /// Resolves a configuration from the persisted file and the discovery
    /// outcome. Total: every filesystem state yields a value, never an
    /// error. Read-only: `self` is borrowed immutably, so resolution cannot
    /// write the store.
    pub fn resolve(&self, discovery: Option<String>) -> (c: Config)
        ensures
            c.game_path@ == resolve_spec(text_of(self.file), text_of(discovery)),
    {
        match &self.file {
            Some(t) => {
                match parse_config(t.as_str()) {
                    Some(p) => {
                        return Config { game_path: p };
                    },
                    None => {},
                }
            },
            None => {},
        }
        match discovery {
            Some(d) => Config { game_path: install_path_from_dir(d.as_str()) },
            None => Config { game_path: String::new() },
        }
    }

    /// Records a successful persist of `path`: afterwards the store holds
    /// exactly the serialized line, whatever it held before (an overwrite,
    /// never an append). Returns the text the driver must write as the
    /// file's entire new content.
    pub fn persist(&mut self, path: &str) -> (text: String)
        ensures
            final(self).file matches Some(t) && t@ == serialized(path@),
            text@ == serialized(path@),
    {
        let text = serialize_config(path);
        self.file = Some(text.clone());
        text
    }
}

/// Persisting is an overwrite: whatever the store held before — in
/// particular a value persisted earlier — the stored text afterwards parses
/// to the newly persisted path alone, never to a different one.
pub proof fn lemma_persist_overwrites(first: Seq<char>, second: Seq<char>)
    ensures
        parsed(serialized(second)) == Some(second),
        second != first ==> parsed(serialized(second)) != Some(first),
{
    lemma_parse_serialize(second);
}

/// The "get configuration" operation: the text of the resolved
/// configuration, which always parses back to the resolved path. Where a
/// parseable persisted file exists, the result is that file's content,
/// returned unchanged, and the discovery outcome plays no part; otherwise
/// it is the serialized resolved path — in particular, with no file and no
/// discovery value, exactly the empty-sentinel line `game_path: ""`.
pub fn get_config(file: Option<String>, discovery: Option<String>) -> (s: String)
    ensures
        parsed(s@) == Some(resolve_spec(text_of(file), text_of(discovery))),
        file matches Some(t) ==> parsed(t@) is Some ==> s@ == t@,
        file is None ==> s@ == serialized(resolve_spec(text_of(file), text_of(discovery))),
        file matches Some(t) ==> parsed(t@) is None ==> s@ == serialized(
            resolve_spec(text_of(file), text_of(discovery)),
        ),
{
    let verbatim: Option<String> = match file {
        Some(t) => {
            match parse_config(t.as_str()) {
                Some(_p) => Some(t),
                None => None,
            }
        },
        None => None,
    };
    match verbatim {
        Some(t) => t,
        None => {
            let c = match discovery {
                Some(d) => install_path_from_dir(d.as_str()),
                None => String::new(),
            };
            let s = serialize_config(c.as_str());
            proof {
                lemma_parse_serialize(c@);
            }
            s
        },
    }
}

} // verus!
