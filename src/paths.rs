use vstd::prelude::*;
use vstd::string::*;

verus! {

/// The path of `segment` inside the directory `base`.
pub open spec fn path_join(base: Seq<char>, segment: Seq<char>) -> Seq<char> {
    base + seq!['/'] + segment
}

/// The extension of the shim files that stand for installed plugins.
pub open spec fn shim_extension() -> Seq<char> {
    seq!['f', 's', 't']
}

/// The extension of group definition files.
pub open spec fn definition_extension() -> Seq<char> {
    seq!['t', 'o', 'm', 'l']
}

/// `stem` followed by a dot and `extension`.
pub open spec fn with_extension(stem: Seq<char>, extension: Seq<char>) -> Seq<char> {
    stem + seq!['.'] + extension
}

/// The name of the shim file of plugin `name`.
pub open spec fn shim_file_name(name: Seq<char>) -> Seq<char> {
    with_extension(name, shim_extension())
}

/// `path` lies somewhere below the directory `dir`.
pub open spec fn is_below(dir: Seq<char>, path: Seq<char>) -> bool {
    &&& path.len() > dir.len() + 1
    &&& path.subrange(0, dir.len() + 1int) == dir + seq!['/']
}

/// The index of the last `c` in `s`, or -1 where `s` holds none.
pub open spec fn last_index_of(s: Seq<char>, c: char) -> int
    decreases s.len(),
{
    if s.len() == 0 {
        -1
    } else if s.last() == c {
        s.len() - 1
    } else {
        last_index_of(s.drop_last(), c)
    }
}

/// The last component of a `/`-separated path.
pub open spec fn file_name_of(path: Seq<char>) -> Seq<char> {
    path.subrange(last_index_of(path, '/') + 1, path.len() as int)
}

/// The text after the last dot of the file name, where a dot stands after its first character.
pub open spec fn extension_of(path: Seq<char>) -> Option<Seq<char>> {
    let name = file_name_of(path);
    let dot = last_index_of(name, '.');
    if dot > 0 {
        Some(name.subrange(dot + 1, name.len() as int))
    } else {
        None
    }
}

proof fn lemma_last_index_bounds(s: Seq<char>, c: char)
    ensures
        -1 <= last_index_of(s, c) < s.len(),
        last_index_of(s, c) >= 0 ==> s[last_index_of(s, c)] == c,
        forall|j: int| last_index_of(s, c) < j < s.len() ==> s[j] != c,
    decreases s.len(),
{
    if s.len() > 0 && s.last() != c {
        lemma_last_index_bounds(s.drop_last(), c);
        assert forall|j: int| last_index_of(s, c) < j < s.len() implies s[j] != c by {
            if j < s.len() - 1 {
                assert(s.drop_last()[j] == s[j]);
            }
        }
    }
}

/// Whether two strings hold the same characters.
pub fn str_eq(a: &str, b: &str) -> (r: bool)
    ensures
        r == (a@ == b@),
{
    let n = a.unicode_len();
    if n != b.unicode_len() {
        return false;
    }
    let mut i: usize = 0;
    while i < n
        invariant
            n == a@.len(),
            n == b@.len(),
            i <= n,
            a@.subrange(0, i as int) == b@.subrange(0, i as int),
        decreases n - i,
    {
        if a.get_char(i) != b.get_char(i) {
            return false;
        }
        assert(a@.subrange(0, i + 1) == a@.subrange(0, i as int).push(a@[i as int]));
        assert(b@.subrange(0, i + 1) == b@.subrange(0, i as int).push(b@[i as int]));
        i = i + 1;
    }
    assert(a@ == a@.subrange(0, n as int));
    assert(b@ == b@.subrange(0, n as int));
    true
}

/// Joins `segment` onto the directory `base` with a `/` separator.
pub fn join(base: &str, segment: &str) -> (r: String)
    ensures
        r@ == path_join(base@, segment@),
{
    let mut r = base.to_owned();
    r.append("/");
    r.append(segment);
    proof {
        reveal_strlit("/");
    }
    r
}

/// The name of the shim file that stands for plugin `name`.
pub fn shim_file(name: &str) -> (r: String)
    ensures
        r@ == shim_file_name(name@),
{
    let mut r = name.to_owned();
    r.append(".fst");
    proof {
        reveal_strlit(".fst");
    }
    r
}

/// The name of the definition file with identifier `id`.
pub fn definition_file(id: &str) -> (r: String)
    ensures
        r@ == with_extension(id@, definition_extension()),
{
    let mut r = id.to_owned();
    r.append(".toml");
    proof {
        reveal_strlit(".toml");
    }
    r
}

/// Whether `path` lies below the directory `dir`.
pub fn lies_below(dir: &str, path: &str) -> (r: bool)
    ensures
        r == is_below(dir@, path@),
{
    let n = dir.unicode_len();
    let m = path.unicode_len();
    if m <= n || m - n <= 1 {
        return false;
    }
    let mut i: usize = 0;
    while i < n
        invariant
            n == dir@.len(),
            m == path@.len(),
            m > n + 1,
            i <= n,
            forall|j: int| 0 <= j < i ==> path@[j] == dir@[j],
        decreases n - i,
    {
        if path.get_char(i) != dir.get_char(i) {
            assert(path@.subrange(0, n + 1)[i as int] != (dir@ + seq!['/'])[i as int]);
            return false;
        }
        i = i + 1;
    }
    if path.get_char(n) != '/' {
        assert(path@.subrange(0, n + 1)[n as int] != (dir@ + seq!['/'])[n as int]);
        return false;
    }
    assert(path@.subrange(0, n + 1) =~= dir@ + seq!['/']);
    true
}

fn last_index(s: &str, c: char) -> (r: Option<usize>)
    ensures
        match r {
            Some(i) => i == last_index_of(s@, c),
            None => last_index_of(s@, c) == -1,
        },
{
    let mut i: usize = s.unicode_len();
    assert(s@.subrange(0, i as int) =~= s@);
    while i > 0
        invariant
            i <= s@.len(),
            last_index_of(s@, c) == last_index_of(s@.subrange(0, i as int), c),
        decreases i,
    {
        let sub = Ghost(s@.subrange(0, i as int));
        assert(sub@.drop_last() =~= s@.subrange(0, i - 1));
        if s.get_char(i - 1) == c {
            return Some(i - 1);
        }
        i = i - 1;
    }
    None
}

/// The extension of the file that `path` names, if it has one.
pub fn extension(path: &str) -> (r: Option<String>)
    ensures
        match r {
            Some(e) => extension_of(path@) == Some(e@),
            None => extension_of(path@) == None::<Seq<char>>,
        },
{
    assert(path@.subrange(0, path@.len() as int) =~= path@);
    let len = path.unicode_len();
    proof {
        lemma_last_index_bounds(path@, '/');
    }
    let start: usize = match last_index(path, '/') {
        Some(i) => i + 1,
        None => 0,
    };
    let name = path.substring_char(start, len);
    assert(name@ == file_name_of(path@));
    assert(name@.subrange(0, name@.len() as int) =~= name@);
    proof {
        lemma_last_index_bounds(name@, '.');
    }
    match last_index(name, '.') {
        Some(dot) => {
            if dot == 0 {
                return None;
            }
            Some(name.substring_char(dot + 1, name.unicode_len()).to_owned())
        },
        None => None,
    }
}

/// `a` comes strictly before `b`, comparing characters by their code points, as `str` orders.
pub open spec fn lex_lt(a: Seq<char>, b: Seq<char>) -> bool
    decreases a.len(),
{
    if b.len() == 0 {
        false
    } else if a.len() == 0 {
        true
    } else if a[0] != b[0] {
        (a[0] as int) < (b[0] as int)
    } else {
        lex_lt(a.drop_first(), b.drop_first())
    }
}

/// Two different strings are ordered one way or the other, and never both ways.
pub proof fn lemma_lex_total(a: Seq<char>, b: Seq<char>)
    ensures
        a != b ==> lex_lt(a, b) || lex_lt(b, a),
        !(lex_lt(a, b) && lex_lt(b, a)),
    decreases a.len(),
{
    if a.len() > 0 && b.len() > 0 && a[0] == b[0] {
        lemma_lex_total(a.drop_first(), b.drop_first());
        if a.drop_first() == b.drop_first() {
            assert(a =~= seq![a[0]] + a.drop_first());
            assert(b =~= seq![b[0]] + b.drop_first());
            assert(a =~= b);
        }
    } else if a.len() > 0 && b.len() > 0 {
        assert(a[0] != b[0]);
        assert((a[0] as int) != (b[0] as int));
    } else if a.len() == 0 && b.len() == 0 {
        assert(a =~= b);
    }
}

/// Whether `a` comes strictly before `b`.
pub fn str_lt(a: &str, b: &str) -> (r: bool)
    ensures
        r == lex_lt(a@, b@),
{
    let n = a.unicode_len();
    let m = b.unicode_len();
    let mut i: usize = 0;
    assert(a@.skip(0) =~= a@);
    assert(b@.skip(0) =~= b@);
    while i < n && i < m
        invariant
            n == a@.len(),
            m == b@.len(),
            i <= n,
            i <= m,
            lex_lt(a@, b@) == lex_lt(a@.skip(i as int), b@.skip(i as int)),
        decreases n - i,
    {
        let c = a.get_char(i);
        let d = b.get_char(i);
        assert(a@.skip(i as int)[0] == c);
        assert(b@.skip(i as int)[0] == d);
        if c != d {
            return (c as u32) < (d as u32);
        }
        assert(a@.skip(i as int).drop_first() =~= a@.skip(i + 1));
        assert(b@.skip(i as int).drop_first() =~= b@.skip(i + 1));
        i = i + 1;
    }
    i < m
}

/// `s` with each space turned into an underscore.
pub open spec fn underscored(s: Seq<char>) -> Seq<char> {
    s.map_values(|c: char| if c == ' ' { '_' } else { c })
}

/// Turns each space of `s` into an underscore.
pub fn underscore_spaces(s: &str) -> (r: String)
    ensures
        r@ == underscored(s@),
{
    let n = s.unicode_len();
    let mut r = String::new();
    let mut i: usize = 0;
    proof {
        reveal_strlit("_");
        assert("_"@ =~= seq!['_']);
    }
    while i < n
        invariant
            n == s@.len(),
            i <= n,
            r@ == underscored(s@.subrange(0, i as int)),
        decreases n - i,
    {
        let c = s.get_char(i);
        let ghost prev = r@;
        if c == ' ' {
            r.append("_");
            proof {
                reveal_strlit("_");
                assert("_"@ =~= seq!['_']);
            }
            assert(r@ =~= prev.push('_'));
        } else {
            r.append(s.substring_char(i, i + 1));
            assert(s@.subrange(i as int, i + 1) =~= seq![c]);
            assert(r@ =~= prev.push(c));
        }
        assert(underscored(s@.subrange(0, i + 1)) =~= underscored(s@.subrange(0, i as int)).push(
            if c == ' ' { '_' } else { c },
        ));
        assert(s@.subrange(i as int, i + 1) =~= seq![c]);
        i = i + 1;
    }
    assert(s@.subrange(0, n as int) =~= s@);
    r
}

/// The lower-case form of `s`, as `str::to_lowercase` gives it.
pub uninterp spec fn lower_of(s: Seq<char>) -> Seq<char>;

/// Relies on `str::to_lowercase`: the result depends on the characters of `s` alone.
#[verifier::external_body]
fn lowercase(s: &str) -> (r: String)
    ensures
        r@ == lower_of(s@),
{
    s.to_lowercase()
}

/// The file identifier that a group named `name` gets where none is given: the name in lower
/// case, with underscores for spaces.
pub fn default_file_name(name: &str) -> (r: String)
    ensures
        r@ == underscored(lower_of(name@)),
{
    let lower = lowercase(name);
    underscore_spaces(lower.as_str())
}

/// The file name of `path` without its extension.
pub open spec fn stem_of(path: Seq<char>) -> Seq<char> {
    let name = file_name_of(path);
    let dot = last_index_of(name, '.');
    if dot > 0 {
        name.subrange(0, dot)
    } else {
        name
    }
}

/// The file name of `path` without its extension: the name of a plugin binary.
pub fn file_stem(path: &str) -> (r: String)
    ensures
        r@ == stem_of(path@),
{
    assert(path@.subrange(0, path@.len() as int) =~= path@);
    let len = path.unicode_len();
    proof {
        lemma_last_index_bounds(path@, '/');
    }
    let start: usize = match last_index(path, '/') {
        Some(i) => i + 1,
        None => 0,
    };
    let name = path.substring_char(start, len);
    assert(name@.subrange(0, name@.len() as int) =~= name@);
    proof {
        lemma_last_index_bounds(name@, '.');
    }
    match last_index(name, '.') {
        Some(dot) => {
            if dot == 0 {
                return name.to_owned();
            }
            name.substring_char(0, dot).to_owned()
        },
        None => name.to_owned(),
    }
}

} // verus!
