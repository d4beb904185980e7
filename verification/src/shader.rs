//! Imports of WGSL shader sources. A shader may begin with
//! `import { name name ... }`; the block is cut off and, for every name that
//! is `clamp` in any letter case, the source of the library's `clamp`
//! function is put in front of the shader.

use vstd::prelude::*;

verus! {

/// Position of the first `c` in `s`.
pub open spec fn find_char(s: Seq<char>, c: char) -> Option<int>
    decreases s.len(),
{
    if s.len() == 0 {
        None
    } else if s[0] == c {
        Some(0)
    } else {
        match find_char(s.drop_first(), c) {
            Some(i) => Some(i + 1),
            None => None,
        }
    }
}

/// The first `c` in `s`, when there is one, is inside `s` and no `c` comes
/// before it.
pub proof fn lemma_find_char(s: Seq<char>, c: char)
    ensures
        find_char(s, c) matches Some(i) ==> 0 <= i < s.len() && s[i] == c && forall|j: int|
            0 <= j < i ==> s[j] != c,
        find_char(s, c) is None ==> forall|j: int| 0 <= j < s.len() ==> s[j] != c,
    decreases s.len(),
{
    if s.len() > 0 {
        lemma_find_char(s.drop_first(), c);
        assert forall|j: int| 1 <= j < s.len() implies #[trigger] s[j] == s.drop_first()[j - 1] by {}
    }
}

/// The Unicode `White_Space` characters, which `str::trim` removes.
pub open spec fn is_space(c: char) -> bool {
    ||| '\u{9}' <= c <= '\u{d}'
    ||| c == ' '
    ||| c == '\u{85}'
    ||| c == '\u{a0}'
    ||| c == '\u{1680}'
    ||| '\u{2000}' <= c <= '\u{200a}'
    ||| c == '\u{2028}'
    ||| c == '\u{2029}'
    ||| c == '\u{202f}'
    ||| c == '\u{205f}'
    ||| c == '\u{3000}'
}

/// `s` without its leading white space.
pub open spec fn trim_start(s: Seq<char>) -> Seq<char>
    decreases s.len(),
{
    if s.len() > 0 && is_space(s[0]) {
        trim_start(s.drop_first())
    } else {
        s
    }
}

/// `s` without its trailing white space.
pub open spec fn trim_end(s: Seq<char>) -> Seq<char>
    decreases s.len(),
{
    if s.len() > 0 && is_space(s.last()) {
        trim_end(s.drop_last())
    } else {
        s
    }
}

/// `s` without leading and trailing white space.
pub open spec fn trim(s: Seq<char>) -> Seq<char> {
    trim_end(trim_start(s))
}

/// The pieces of `s` between single spaces, empty ones included.
pub open spec fn split_spaces(s: Seq<char>) -> Seq<Seq<char>>
    decreases s.len(),
{
    match find_char(s, ' ') {
        None => seq![s],
        Some(i) => {
            proof {
                lemma_find_char(s, ' ');
            }
            seq![s.subrange(0, i)] + split_spaces(s.subrange(i + 1, s.len() as int))
        },
    }
}

/// `name` is `clamp` in some letter case: its upper case is `CLAMP`.
pub open spec fn names_clamp(name: Seq<char>) -> bool {
    &&& name.len() == 5
    &&& (name[0] == 'c' || name[0] == 'C')
    &&& (name[1] == 'l' || name[1] == 'L')
    &&& (name[2] == 'a' || name[2] == 'A')
    &&& (name[3] == 'm' || name[3] == 'M')
    &&& (name[4] == 'p' || name[4] == 'P')
}

/// How many of the names are `clamp`.
pub open spec fn clamp_count(names: Seq<Seq<char>>) -> nat
    decreases names.len(),
{
    if names.len() == 0 {
        0
    } else {
        (if names_clamp(names[0]) {
            1nat
        } else {
            0nat
        }) + clamp_count(names.drop_first())
    }
}

/// `s` repeated `n` times.
pub open spec fn repeated(s: Seq<char>, n: nat) -> Seq<char>
    decreases n,
{
    if n == 0 {
        seq![]
    } else {
        repeated(s, (n - 1) as nat) + s
    }
}

/// The shader begins with the word `import`.
pub open spec fn has_imports(shader: Seq<char>) -> bool {
    shader.len() >= 6 && shader.subrange(0, 6) == seq!['i', 'm', 'p', 'o', 'r', 't']
}

/// A shader that begins with `import` has a `{` and, after it, a `}`.
pub open spec fn imports_well_formed(shader: Seq<char>) -> bool {
    has_imports(shader) ==> {
        &&& find_char(shader, '{') is Some
        &&& find_char(shader, '}') is Some
        &&& find_char(shader, '{')->0 < find_char(shader, '}')->0
    }
}

/// The shader once its imports are resolved.
pub open spec fn resolved(shader: Seq<char>, clamp_source: Seq<char>) -> Seq<char> {
    if has_imports(shader) {
        let open = find_char(shader, '{')->0;
        let close = find_char(shader, '}')->0;
        let names = split_spaces(trim(shader.subrange(open + 1, close)));
        repeated(clamp_source, clamp_count(names)) + shader.subrange(close + 1, shader.len() as int)
    } else {
        shader
    }
}

/// The first position of `c` in `s[from..to]`, if any.
fn find_in(s: &Vec<char>, c: char, from: usize, to: usize) -> (r: Option<usize>)
    requires
        from <= to <= s@.len(),
    ensures
        r matches Some(i) ==> from <= i < to,
        find_char(s@.subrange(from as int, to as int), c) == match r {
            Some(i) => Some(i - from),
            None => None::<int>,
        },
    decreases to - from,
{
    let ghost rest = s@.subrange(from as int, to as int);
    if from == to {
        None
    } else if s[from] == c {
        Some(from)
    } else {
        assert(rest.drop_first() =~= s@.subrange(from + 1, to as int));
        find_in(s, c, from + 1, to)
    }
}

fn is_space_char(c: char) -> (r: bool)
    ensures
        r == is_space(c),
{
    ('\u{9}' <= c && c <= '\u{d}') || c == ' ' || c == '\u{85}' || c == '\u{a0}' || c == '\u{1680}'
        || ('\u{2000}' <= c && c <= '\u{200a}') || c == '\u{2028}' || c == '\u{2029}' || c
        == '\u{202f}' || c == '\u{205f}' || c == '\u{3000}'
}

/// The bounds of `s[from..to]` without its leading and trailing white space.
fn trim_bounds(s: &Vec<char>, from: usize, to: usize) -> (r: (usize, usize))
    requires
        from <= to <= s@.len(),
    ensures
        from <= r.0 <= r.1 <= to,
        s@.subrange(r.0 as int, r.1 as int) == trim(s@.subrange(from as int, to as int)),
{
    let mut a: usize = from;
    while a < to && is_space_char(s[a])
        invariant
            from <= a <= to <= s@.len(),
            trim_start(s@.subrange(from as int, to as int)) == trim_start(s@.subrange(a as int, to as int)),
        decreases to - a,
    {
        assert(s@.subrange(a as int, to as int).drop_first() =~= s@.subrange(a + 1, to as int));
        a = a + 1;
    }
    let mut b: usize = to;
    while b > a && is_space_char(s[b - 1])
        invariant
            from <= a <= b <= to <= s@.len(),
            trim_start(s@.subrange(from as int, to as int)) == s@.subrange(a as int, to as int),
            trim_end(s@.subrange(a as int, to as int)) == trim_end(s@.subrange(a as int, b as int)),
        decreases b - a,
    {
        assert(s@.subrange(a as int, b as int).drop_last() =~= s@.subrange(a as int, b - 1));
        b = b - 1;
    }
    (a, b)
}

/// Whether `s[from..to]` names `clamp`.
fn piece_names_clamp(s: &Vec<char>, from: usize, to: usize) -> (r: bool)
    requires
        from <= to <= s@.len(),
    ensures
        r == names_clamp(s@.subrange(from as int, to as int)),
{
    if to - from != 5 {
        return false;
    }
    let c0 = s[from];
    let c1 = s[from + 1];
    let c2 = s[from + 2];
    let c3 = s[from + 3];
    let c4 = s[from + 4];
    (c0 == 'c' || c0 == 'C') && (c1 == 'l' || c1 == 'L') && (c2 == 'a' || c2 == 'A') && (c3 == 'm'
        || c3 == 'M') && (c4 == 'p' || c4 == 'P')
}

/// Number of pieces of `s[from..to]`, split at single spaces, that name
/// `clamp`.
fn count_clamp_names(s: &Vec<char>, from: usize, to: usize) -> (n: usize)
    requires
        from <= to <= s@.len(),
    ensures
        n == clamp_count(split_spaces(s@.subrange(from as int, to as int))),
        n * 5 <= to - from,
    decreases to - from,
{
    let ghost piece = s@.subrange(from as int, to as int);
    match find_in(s, ' ', from, to) {
        None => {
            assert(split_spaces(piece) == seq![piece]);
            assert(seq![piece].drop_first() =~= Seq::<Seq<char>>::empty());
            reveal_with_fuel(clamp_count, 2);
            if piece_names_clamp(s, from, to) {
                1
            } else {
                0
            }
        },
        Some(i) => {
            let here: usize = if piece_names_clamp(s, from, i) {
                1
            } else {
                0
            };
            let rest: usize = count_clamp_names(s, i + 1, to);
            proof {
                lemma_find_char(piece, ' ');
                assert(piece.subrange(0, i - from) =~= s@.subrange(from as int, i as int));
                assert(piece.subrange(i - from + 1, piece.len() as int) =~= s@.subrange(i + 1, to as int));
                let pieces = split_spaces(piece);
                assert(pieces[0] == s@.subrange(from as int, i as int));
                assert(pieces.drop_first() =~= split_spaces(s@.subrange(i + 1, to as int)));
            }
            here + rest
        },
    }
}

/// The shader once its imports are resolved: the `import { ... }` block is
/// cut off, and the source of `clamp` is put in front once for every name
/// in the block, separated by single spaces, that is `clamp` in any letter
/// case.
pub fn resolve_imports(shader: &Vec<char>, clamp_source: &Vec<char>) -> (out: Vec<char>)
    requires
        imports_well_formed(shader@),
        resolved(shader@, clamp_source@).len() <= usize::MAX,
    ensures
        out@ == resolved(shader@, clamp_source@),
{
    let len: usize = shader.len();
    let starts: bool = len >= 6 && shader[0] == 'i' && shader[1] == 'm' && shader[2] == 'p'
        && shader[3] == 'o' && shader[4] == 'r' && shader[5] == 't';
    proof {
        if len >= 6 {
            assert(starts == (shader@.subrange(0, 6) =~= seq!['i', 'm', 'p', 'o', 'r', 't']));
        }
        assert(shader@.subrange(0, len as int) =~= shader@);
    }
    if !starts {
        let mut out: Vec<char> = Vec::new();
        let mut k: usize = 0;
        while k < len
            invariant
                len == shader@.len(),
                k <= len,
                out@ == shader@.subrange(0, k as int),
            decreases len - k,
        {
            out.push(shader[k]);
            assert(out@ =~= shader@.subrange(0, k + 1));
            k = k + 1;
        }
        return out;
    }
    let open: usize = find_in(shader, '{', 0, len).unwrap();
    let close: usize = find_in(shader, '}', 0, len).unwrap();
    let (a, b) = trim_bounds(shader, open + 1, close);
    let n: usize = count_clamp_names(shader, a, b);
    let ghost names = split_spaces(trim(shader@.subrange(open + 1, close as int)));
    let mut out: Vec<char> = Vec::new();
    let mut r: usize = 0;
    while r < n
        invariant
            n == clamp_count(names),
            r <= n,
            out@ == repeated(clamp_source@, r as nat),
            repeated(clamp_source@, n as nat).len() <= usize::MAX,
        decreases n - r,
    {
        proof {
            lemma_repeated_len(clamp_source@, (r + 1) as nat, n as nat);
        }
        let ghost before = out@;
        let mut k: usize = 0;
        while k < clamp_source.len()
            invariant
                out@ == before + clamp_source@.subrange(0, k as int),
                before == repeated(clamp_source@, r as nat),
                repeated(clamp_source@, (r + 1) as nat).len() <= usize::MAX,
                k <= clamp_source@.len(),
            decreases clamp_source@.len() - k,
        {
            out.push(clamp_source[k]);
            assert(out@ =~= before + clamp_source@.subrange(0, k + 1));
            k = k + 1;
        }
        assert(clamp_source@.subrange(0, k as int) =~= clamp_source@);
        r = r + 1;
    }
    let ghost head = out@;
    let mut k: usize = close + 1;
    while k < len
        invariant
            len == shader@.len(),
            close < k <= len || k == close + 1,
            close < len,
            out@ == head + shader@.subrange(close + 1, k as int),
            head == repeated(clamp_source@, n as nat),
            resolved(shader@, clamp_source@) == head + shader@.subrange(close + 1, len as int),
            resolved(shader@, clamp_source@).len() <= usize::MAX,
        decreases len - k,
    {
        out.push(shader[k]);
        assert(out@ =~= head + shader@.subrange(close + 1, k + 1));
        k = k + 1;
    }
    out
}

/// Repeating more times gives a longer sequence.
proof fn lemma_repeated_len(s: Seq<char>, m: nat, n: nat)
    requires
        m <= n,
    ensures
        repeated(s, m).len() <= repeated(s, n).len(),
    decreases n - m,
{
    if m < n {
        lemma_repeated_len(s, m, (n - 1) as nat);
    }
}

} // verus!
