//! Preprocessing of shader sources: `$name$` stands for the value of the
//! variable `name`.
use vstd::prelude::*;
use vstd::string::StringExecFns;

verus! {

/// The byte code of `$`.
pub const DOLLAR: u8 = 36;

/// The characters of `b`, one per byte.
pub open spec fn byte_chars(b: Seq<u8>) -> Seq<char> {
    b.map_values(|x: u8| x as char)
}

/// The position of the first `$` in `b`, if any.
pub open spec fn first_dollar(b: Seq<u8>) -> Option<int> {
    if exists|k: int| 0 <= k < b.len() && b[k] == DOLLAR {
        Some(choose|k: int| 0 <= k < b.len() && b[k] == DOLLAR && forall|j: int| 0 <= j < k ==> b[j] != DOLLAR)
    } else {
        None
    }
}

/// The value of the variable `name`, if `vars` defines it.
pub open spec fn lookup(vars: Seq<(Seq<char>, Seq<char>)>, name: Seq<char>) -> Option<Seq<char>> {
    if exists|i: int| 0 <= i < vars.len() && vars[i].0 == name {
        Some(vars[choose|i: int| 0 <= i < vars.len() && vars[i].0 == name].1)
    } else {
        None
    }
}

/// The text of the variables: names and values.
pub open spec fn vars_text(vars: Seq<(String, String)>) -> Seq<(Seq<char>, Seq<char>)> {
    vars.map_values(|p: (String, String)| (p.0@, p.1@))
}

/// `first_dollar` gives a position of `b`.
pub proof fn first_dollar_range(b: Seq<u8>)
    ensures
        first_dollar(b) matches Some(k) ==> 0 <= k < b.len() && b[k] == DOLLAR && forall|j: int|
            0 <= j < k ==> b[j] != DOLLAR,
{
    if exists|k: int| 0 <= k < b.len() && b[k] == DOLLAR {
        let k = choose|k: int| 0 <= k < b.len() && b[k] == DOLLAR;
        lemma_first_exists(b, k);
    }
}

/// When `b` holds a `$` at `k`, a first `$` exists.
proof fn lemma_first_exists(b: Seq<u8>, k: int)
    requires
        0 <= k < b.len(),
        b[k] == DOLLAR,
    ensures
        exists|c: int| 0 <= c < b.len() && b[c] == DOLLAR && forall|j: int| 0 <= j < c ==> b[j] != DOLLAR,
    decreases k,
{
    if !(forall|j: int| 0 <= j < k ==> b[j] != DOLLAR) {
        let j = choose|j: int| 0 <= j < k && b[j] == DOLLAR;
        lemma_first_exists(b, j);
    }
}

/// The preprocessed text of the bytes `b`: every byte stands for the
/// character of the same code, except that `$`, a name, and `$` stand for the
/// value of the variable of that name. There is none when a `$` has no
/// matching `$`, or names a variable that `vars` does not define.
pub open spec fn expand(b: Seq<u8>, vars: Seq<(Seq<char>, Seq<char>)>) -> Option<Seq<char>>
    decreases b.len(),
{
    if b.len() == 0 {
        Some(Seq::empty())
    } else if b[0] == DOLLAR {
        let rest = b.drop_first();
        match first_dollar(rest) {
            None => None,
            Some(k) => {
                proof {
                    first_dollar_range(rest);
                }
                match lookup(vars, byte_chars(rest.take(k))) {
                    None => None,
                    Some(v) => match expand(rest.skip(k + 1), vars) {
                        None => None,
                        Some(t) => Some(v + t),
                    },
                }
            },
        }
    } else {
        match expand(b.drop_first(), vars) {
            None => None,
            Some(t) => Some(seq![b[0] as char] + t),
        }
    }
}

/// Appends `c` to `s`.
///
/// Calls `String::push`, which appends one character.
#[verifier::external_body]
fn push_char(s: &mut String, c: char)
    ensures
        final(s)@ == old(s)@.push(c),
{
    s.push(c)
}

/// The value of the variable named `name` in `vars`.
fn find_var<'a>(vars: &'a Vec<(String, String)>, name: &String) -> (r: Option<&'a String>)
    requires
        forall|i: int, j: int| 0 <= i < j < vars@.len() ==> vars@[i].0@ != vars@[j].0@,
    ensures
        match r {
            None => lookup(vars_text(vars@), name@) is None,
            Some(v) => lookup(vars_text(vars@), name@) == Some(v@),
        },
{
    let ghost t = vars_text(vars@);
    let mut i: usize = 0;
    while i < vars.len()
        invariant
            0 <= i <= vars@.len(),
            t == vars_text(vars@),
            forall|j: int| 0 <= j < i ==> vars@[j].0@ != name@,
            forall|i: int, j: int| 0 <= i < j < vars@.len() ==> vars@[i].0@ != vars@[j].0@,
        decreases vars@.len() - i,
    {
        if vars[i].0 == *name {
            proof {
                assert(t[i as int].0 == name@);
                let k = choose|k: int| 0 <= k < t.len() && t[k].0 == name@;
                assert(t[k].0 == vars@[k].0@);
                assert(k == i) by {
                    if k < i {
                        assert(vars@[k].0@ != vars@[i as int].0@);
                    } else if k > i {
                        assert(vars@[i as int].0@ != vars@[k].0@);
                    }
                }
            }
            return Some(&vars[i].1);
        }
        i = i + 1;
    }
    proof {
        assert forall|k: int| 0 <= k < t.len() implies t[k].0 != name@ by {
            assert(t[k].0 == vars@[k].0@);
        }
    }
    None
}

/// The closing `$` of a reference whose name starts at `start`, and the
/// name; `None` when no `$` follows.
fn scan_name(b: &[u8], start: usize) -> (r: Option<(usize, String)>)
    requires
        start <= b@.len(),
    ensures
        match r {
            None => forall|j: int| start <= j < b@.len() ==> b@[j] != DOLLAR,
            Some((k, name)) => {
                &&& start <= k < b@.len()
                &&& b@[k as int] == DOLLAR
                &&& forall|j: int| start <= j < k ==> b@[j] != DOLLAR
                &&& name@ == byte_chars(b@.subrange(start as int, k as int))
            },
        },
{
    let mut name = String::new();
    let mut i = start;
    proof {
        assert(byte_chars(b@.subrange(start as int, start as int)) =~= Seq::<char>::empty());
    }
    while i < b.len()
        invariant
            start <= i <= b@.len(),
            forall|j: int| start <= j < i ==> b@[j] != DOLLAR,
            name@ == byte_chars(b@.subrange(start as int, i as int)),
        decreases b@.len() - i,
    {
        if b[i] == DOLLAR {
            return Some((i, name));
        }
        push_char(&mut name, b[i] as char);
        proof {
            assert(byte_chars(b@.subrange(start as int, i + 1)) =~= byte_chars(
                b@.subrange(start as int, i as int),
            ).push(b@[i as int] as char));
        }
        i = i + 1;
    }
    None
}

/// How `expand` goes on at a `$` at `d`.
proof fn lemma_expand_dollar(b: Seq<u8>, d: int, vt: Seq<(Seq<char>, Seq<char>)>)
    requires
        0 <= d < b.len(),
        b[d] == DOLLAR,
    ensures
        (forall|j: int| d < j < b.len() ==> b[j] != DOLLAR) ==> expand(b.skip(d), vt) is None,
        forall|k: int|
            d < k < b.len() && b[k] == DOLLAR && (forall|j: int| d < j < k ==> b[j] != DOLLAR)
                ==> expand(b.skip(d), vt) == match lookup(
                vt,
                byte_chars(b.subrange(d + 1, k)),
            ) {
                None => None,
                Some(v) => match expand(b.skip(k + 1), vt) {
                    None => None,
                    Some(t) => Some(v + t),
                },
            },
{
    let s = b.skip(d);
    let rest = s.drop_first();
    assert(rest =~= b.skip(d + 1));
    first_dollar_range(rest);
    if forall|j: int| d < j < b.len() ==> b[j] != DOLLAR {
        assert(!(exists|k: int| 0 <= k < rest.len() && rest[k] == DOLLAR)) by {
            assert forall|k: int| 0 <= k < rest.len() implies rest[k] != DOLLAR by {
                assert(rest[k] == b[d + 1 + k]);
            }
        }
    }
    assert forall|k: int|
        d < k < b.len() && b[k] == DOLLAR && (forall|j: int| d < j < k ==> b[j] != DOLLAR)
            implies expand(b.skip(d), vt) == match lookup(vt, byte_chars(b.subrange(d + 1, k))) {
            None => None,
            Some(v) => match expand(b.skip(k + 1), vt) {
                None => None,
                Some(t) => Some(v + t),
            },
        } by {
        let c = k - d - 1;
        assert(rest[c] == DOLLAR);
        lemma_first_exists(rest, c);
        let f = first_dollar(rest).unwrap();
        assert(f == c) by {
            if f < c {
                assert(rest[f] == b[d + 1 + f]);
            } else if f > c {
                assert(rest[c] != DOLLAR);
            }
        }
        assert(rest.take(c) =~= b.subrange(d + 1, k));
        assert(rest.skip(c + 1) =~= b.skip(k + 1));
    }
}

/// How `expand` goes on at a byte other than `$` at `i`.
proof fn lemma_expand_plain(b: Seq<u8>, i: int, vt: Seq<(Seq<char>, Seq<char>)>)
    requires
        0 <= i < b.len(),
        b[i] != DOLLAR,
    ensures
        expand(b.skip(i), vt) == match expand(b.skip(i + 1), vt) {
            None => None,
            Some(t) => Some(seq![b[i] as char] + t),
        },
{
    assert(b.skip(i).drop_first() =~= b.skip(i + 1));
}

/// Turns a shader definition into a vanilla GLSL shader definition, the
/// value of each variable in `vars` replacing the references to it. Returns
/// `None` on a `$` without matching `$`, and on a reference to an undefined
/// variable.
#[verifier::rlimit(40)]
pub fn preprocess(shader: String, vars: &Vec<(String, String)>) -> (r: Option<String>)
    requires
        forall|i: int, j: int| 0 <= i < j < vars@.len() ==> vars@[i].0@ != vars@[j].0@,
    ensures
        match r {
            None => expand(vstd::utf8::encode_utf8(shader@), vars_text(vars@)) is None,
            Some(s) => expand(vstd::utf8::encode_utf8(shader@), vars_text(vars@)) == Some(s@),
        },
{
    let bytes = shader.as_str().as_bytes();
    let ghost b = bytes@;
    proof {
        assert(b == vstd::utf8::encode_utf8(shader@));
    }
    let ghost vt = vars_text(vars@);
    let mut processed = String::new();
    let mut i: usize = 0;
    proof {
        assert(b.skip(0) =~= b);
        match expand(b, vt) {
            None => {},
            Some(t) => {
                assert(processed@ + t =~= t);
            },
        }
    }
    // For termination conditions, look for explicit returns.
    loop
        invariant
            0 <= i <= b.len(),
            b == bytes@,
            b == vstd::utf8::encode_utf8(shader@),
            vt == vars_text(vars@),
            forall|i: int, j: int| 0 <= i < j < vars@.len() ==> vars@[i].0@ != vars@[j].0@,
            expand(b, vt) == match expand(b.skip(i as int), vt) {
                None => None,
                Some(t) => Some(processed@ + t),
            },
        decreases b.len() - i,
    {
        if i >= bytes.len() {
            proof {
                assert(b.skip(i as int) =~= Seq::<u8>::empty());
                assert(processed@ + Seq::<char>::empty() =~= processed@);
            }
            return Some(processed);
        }
        if bytes[i] == DOLLAR {
            proof {
                lemma_expand_dollar(b, i as int, vt);
            }
            match scan_name(bytes, i + 1) {
                None => {
                    // `$` without matching `$`
                    return None;
                },
                Some((k, var_name)) => {
                    match find_var(vars, &var_name) {
                        None => {
                            // reference to an undefined variable
                            return None;
                        },
                        Some(val) => {
                            let ghost before = processed@;
                            processed.append(val.as_str());
                            proof {
                                match expand(b.skip(k + 1), vt) {
                                    None => {},
                                    Some(t) => {
                                        assert(before + (val@ + t) =~= processed@ + t);
                                    },
                                }
                            }
                            i = k;
                        },
                    }
                },
            }
        } else {
            let c = bytes[i] as char;
            let ghost before = processed@;
            push_char(&mut processed, c);
            proof {
                lemma_expand_plain(b, i as int, vt);
                match expand(b.skip(i + 1), vt) {
                    None => {},
                    Some(t) => {
                        assert(before + (seq![c] + t) =~= processed@ + t);
                    },
                }
            }
        }
        i = i + 1;
    }
}

/// Text without `$` comes out unchanged, one character per byte, whatever
/// the variables.
pub proof fn plain_text_is_kept(b: Seq<u8>, vars: Seq<(Seq<char>, Seq<char>)>)
    requires
        forall|i: int| 0 <= i < b.len() ==> b[i] != DOLLAR,
    ensures
        expand(b, vars) == Some(byte_chars(b)),
    decreases b.len(),
{
    if b.len() > 0 {
        plain_text_is_kept(b.drop_first(), vars);
        assert(seq![b[0] as char] + byte_chars(b.drop_first()) =~= byte_chars(b));
    }
}

} // verus!
