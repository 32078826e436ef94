//! Text that the engine derives: decimal numbers, base names of paths, result
//! keys and output directory names.

use vstd::prelude::*;
use vstd::std_specs::iter::IteratorSpec;
use vstd::string::*;

verus! {

/// The character of a decimal digit.
pub open spec fn digit_char(d: nat) -> char {
    if d == 0 {
        '0'
    } else if d == 1 {
        '1'
    } else if d == 2 {
        '2'
    } else if d == 3 {
        '3'
    } else if d == 4 {
        '4'
    } else if d == 5 {
        '5'
    } else if d == 6 {
        '6'
    } else if d == 7 {
        '7'
    } else if d == 8 {
        '8'
    } else {
        '9'
    }
}

/// The decimal numeral of `n`, without sign or leading zeros.
pub open spec fn decimal(n: nat) -> Seq<char>
    decreases n,
{
    if n < 10 {
        seq![digit_char(n)]
    } else {
        decimal(n / 10).push(digit_char(n % 10))
    }
}

/// The index at which the last component of the first `upto` characters of
/// a path begins: just behind the last `/`, or 0 where there is none.
pub open spec fn name_start(path: Seq<char>, upto: nat) -> nat
    decreases upto,
{
    if upto == 0 {
        0
    } else if path[upto - 1] == '/' {
        upto
    } else {
        name_start(path, (upto - 1) as nat)
    }
}

/// The last component of a path: what follows its last `/`, or the whole
/// path where it holds none.
pub open spec fn base_name_of(path: Seq<char>) -> Seq<char> {
    path.subrange(name_start(path, path.len()) as int, path.len() as int)
}

/// The key under which the result for a match is filed: the path of the file
/// that holds the match, the offset and the signature's identifier,
/// separated by colons.
pub open spec fn key_of(source: Seq<char>, offset: nat, signature: Seq<char>) -> Seq<char> {
    source + seq![':'] + decimal(offset) + seq![':'] + signature
}

/// The directory that receives what is extracted for a match: the stem, the
/// offset and the signature's identifier, joined by underscores.
pub open spec fn directory_of(stem: Seq<char>, offset: nat, signature: Seq<char>) -> Seq<char> {
    stem + seq!['_'] + decimal(offset) + seq!['_'] + signature
}

/// The stem for the matches of the file that a session was opened on: its
/// base name, placed under the output root.
pub open spec fn root_stem(output_root: Seq<char>, target: Seq<char>) -> Seq<char> {
    output_root + seq!['/'] + base_name_of(target)
}

/// The component starts within the prefix, behind a `/` or at the front, and
/// holds no `/` itself.
pub proof fn lemma_name_start(path: Seq<char>, upto: nat)
    requires
        upto <= path.len(),
    ensures
        name_start(path, upto) <= upto,
        name_start(path, upto) == 0 || path[name_start(path, upto) - 1] == '/',
        forall|i: int| name_start(path, upto) <= i < upto ==> path[i] != '/',
    decreases upto,
{
    if upto > 0 && path[upto - 1] != '/' {
        lemma_name_start(path, (upto - 1) as nat);
    }
}

/// Whether the character is a decimal digit.
pub open spec fn is_digit(c: char) -> bool {
    c == '0' || c == '1' || c == '2' || c == '3' || c == '4' || c == '5' || c == '6' || c == '7'
        || c == '8' || c == '9'
}

/// A decimal numeral is not empty and holds digits only.
pub proof fn lemma_decimal_digits(n: nat)
    ensures
        decimal(n).len() >= 1,
        forall|i: int| 0 <= i < decimal(n).len() ==> is_digit(#[trigger] decimal(n)[i]),
    decreases n,
{
    if n >= 10 {
        lemma_decimal_digits(n / 10);
    }
}

/// Different numbers have different numerals.
pub proof fn lemma_decimal_injective(a: nat, b: nat)
    requires
        decimal(a) == decimal(b),
    ensures
        a == b,
    decreases a,
{
    lemma_decimal_digits(a / 10);
    lemma_decimal_digits(b / 10);
    if a < 10 {
        if b >= 10 {
            assert(decimal(b).len() == decimal(b / 10).len() + 1);
            assert(false);
        }
        assert(decimal(a)[0] == digit_char(a));
        assert(decimal(b)[0] == digit_char(b));
        assert(digit_char(a) == digit_char(b));
    } else {
        if b < 10 {
            assert(decimal(a).len() == decimal(a / 10).len() + 1);
            assert(false);
        }
        let da = decimal(a / 10);
        let db = decimal(b / 10);
        assert(decimal(a) == da.push(digit_char(a % 10)));
        assert(decimal(b) == db.push(digit_char(b % 10)));
        assert(da.push(digit_char(a % 10)).drop_last() =~= da);
        assert(db.push(digit_char(b % 10)).drop_last() =~= db);
        assert(da == db);
        assert(da.push(digit_char(a % 10)).last() == digit_char(a % 10));
        assert(db.push(digit_char(b % 10)).last() == digit_char(b % 10));
        assert(digit_char(a % 10) == digit_char(b % 10));
        lemma_decimal_injective(a / 10, b / 10);
        assert(a % 10 == b % 10);
    }
}

/// A text made of a head, a separator that is no digit, a decimal numeral,
/// the separator again and a tail determines the number and the tail.
pub proof fn lemma_joined_injective(
    head: Seq<char>,
    separator: char,
    a: nat,
    tail_a: Seq<char>,
    b: nat,
    tail_b: Seq<char>,
)
    requires
        !is_digit(separator),
        head + seq![separator] + decimal(a) + seq![separator] + tail_a == head + seq![separator]
            + decimal(b) + seq![separator] + tail_b,
    ensures
        a == b,
        tail_a == tail_b,
{
    let da = decimal(a);
    let db = decimal(b);
    let sa = head + seq![separator] + da + seq![separator] + tail_a;
    let sb = head + seq![separator] + db + seq![separator] + tail_b;
    let front: int = head.len() as int + 1;
    lemma_decimal_digits(a);
    lemma_decimal_digits(b);
    if da.len() < db.len() {
        assert(sa[front + da.len()] == separator);
        assert(sb[front + da.len()] == db[da.len() as int]);
    }
    if db.len() < da.len() {
        assert(sb[front + db.len()] == separator);
        assert(sa[front + db.len()] == da[db.len() as int]);
    }
    assert(da =~= db) by {
        assert forall|i: int| 0 <= i < da.len() implies da[i] == db[i] by {
            assert(sa[front + i] == da[i]);
            assert(sb[front + i] == db[i]);
        }
    }
    lemma_decimal_injective(a, b);
    assert(sa.len() == sb.len());
    assert(tail_a =~= tail_b) by {
        assert forall|i: int| 0 <= i < tail_a.len() implies tail_a[i] == tail_b[i] by {
            assert(sa[front + da.len() + 1 + i] == tail_a[i]);
            assert(sb[front + db.len() + 1 + i] == tail_b[i]);
        }
    }
}

/// Two matches of one file have the same key only if they share the offset
/// and the signature.
pub proof fn lemma_keys_apart(
    source: Seq<char>,
    offset_a: nat,
    signature_a: Seq<char>,
    offset_b: nat,
    signature_b: Seq<char>,
)
    requires
        key_of(source, offset_a, signature_a) == key_of(source, offset_b, signature_b),
    ensures
        offset_a == offset_b,
        signature_a == signature_b,
{
    lemma_joined_injective(source, ':', offset_a, signature_a, offset_b, signature_b);
}

/// Two matches of one file are extracted into the same directory only if
/// they share the offset and the signature.
pub proof fn lemma_directories_apart(
    stem: Seq<char>,
    offset_a: nat,
    signature_a: Seq<char>,
    offset_b: nat,
    signature_b: Seq<char>,
)
    requires
        directory_of(stem, offset_a, signature_a) == directory_of(stem, offset_b, signature_b),
    ensures
        offset_a == offset_b,
        signature_a == signature_b,
{
    lemma_joined_injective(stem, '_', offset_a, signature_a, offset_b, signature_b);
}

fn digit_text(d: usize) -> (s: &'static str)
    requires
        d < 10,
    ensures
        s@ == seq![digit_char(d as nat)],
{
    proof {
        reveal_strlit("0");
        reveal_strlit("1");
        reveal_strlit("2");
        reveal_strlit("3");
        reveal_strlit("4");
        reveal_strlit("5");
        reveal_strlit("6");
        reveal_strlit("7");
        reveal_strlit("8");
        reveal_strlit("9");
    }
    let s = if d == 0 {
        "0"
    } else if d == 1 {
        "1"
    } else if d == 2 {
        "2"
    } else if d == 3 {
        "3"
    } else if d == 4 {
        "4"
    } else if d == 5 {
        "5"
    } else if d == 6 {
        "6"
    } else if d == 7 {
        "7"
    } else if d == 8 {
        "8"
    } else {
        "9"
    };
    assert(s@ =~= seq![digit_char(d as nat)]);
    s
}

/// Renders `n` as a decimal numeral.
pub fn render_decimal(n: usize) -> (s: String)
    ensures
        s@ == decimal(n as nat),
    decreases n,
{
    if n < 10 {
        String::from_str(digit_text(n))
    } else {
        let mut s = render_decimal(n / 10);
        s.append(digit_text(n % 10));
        assert(s@ =~= decimal(n as nat));
        s
    }
}

/// The last component of a path.
pub fn base_name(path: &str) -> (name: String)
    ensures
        name@ == base_name_of(path@),
{
    let total: usize = path.unicode_len();
    let mut rest = path.chars();
    let mut seen: usize = 0;
    let mut start: usize = 0;
    loop
        invariant
            total == path@.len(),
            seen <= total,
            rest.remaining() == path@.subrange(seen as int, total as int),
            start == name_start(path@, seen as nat),
            start <= seen,
        ensures
            seen == total,
            start == name_start(path@, total as nat),
            start <= total,
        decreases total - seen,
    {
        let ghost before = rest;
        match rest.next() {
            Some(c) => {
                proof {
                    next_postcondition(&before, &rest, Some(c));
                    assert(before.remaining().len() > 0);
                    assert(c == path@[seen as int]);
                    assert(rest.remaining() == path@.subrange(seen + 1, total as int));
                }
                seen += 1;
                if c == '/' {
                    start = seen;
                }
            },
            None => {
                proof {
                    next_postcondition(&before, &rest, None);
                }
                break ;
            },
        }
    }
    String::from_str(path.substring_char(start, total))
}

/// Joins the parts of a key or directory name with the separator.
fn join3(head: &str, separator: &'static str, offset: usize, signature: &str) -> (s: String)
    ensures
        s@ == head@ + separator@ + decimal(offset as nat) + separator@ + signature@,
{
    let mut s = String::from_str(head);
    s.append(separator);
    let number = render_decimal(offset);
    s.append(number.as_str());
    s.append(separator);
    s.append(signature);
    s
}

/// Builds the key under which the result for a match is filed.
pub fn result_key(source: &str, offset: usize, signature: &str) -> (key: String)
    ensures
        key@ == key_of(source@, offset as nat, signature@),
{
    proof {
        reveal_strlit(":");
    }
    let key = join3(source, ":", offset, signature);
    assert(":"@ =~= seq![':']);
    key
}

/// Builds the name of the directory that receives what is extracted for a
/// match.
pub fn output_directory(stem: &str, offset: usize, signature: &str) -> (dir: String)
    ensures
        dir@ == directory_of(stem@, offset as nat, signature@),
{
    proof {
        reveal_strlit("_");
    }
    let dir = join3(stem, "_", offset, signature);
    assert("_"@ =~= seq!['_']);
    dir
}

/// Builds the stem for the matches of the file that a session was opened on.
pub fn stem_under(output_root: &str, target: &str) -> (stem: String)
    ensures
        stem@ == root_stem(output_root@, target@),
{
    proof {
        reveal_strlit("/");
    }
    let mut stem = String::from_str(output_root);
    stem.append("/");
    assert("/"@ =~= seq!['/']);
    let name = base_name(target);
    stem.append(name.as_str());
    stem
}

} // verus!
