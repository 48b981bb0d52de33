//! Capability flags ("shader defs") as supplied by the host renderer.
//!
//! A flag is a named boolean, signed-integer or unsigned-integer definition.
//! The host hands an ordered list of them to each specialization call; this
//! library treats the list as a set keyed by name.

use vstd::prelude::*;

verus! {

/// A named capability flag: a boolean, signed or unsigned integer definition.
#[derive(Debug, PartialEq, Eq)]
pub enum ShaderDefVal {
    Bool(String, bool),
    Int(String, i32),
    UInt(String, u32),
}

/// Mathematical value of a [`ShaderDefVal`]: the name as a character
/// sequence, the value as an unbounded integer.
pub enum ShaderDefV {
    Bool(Seq<char>, bool),
    Int(Seq<char>, int),
    UInt(Seq<char>, int),
}

impl View for ShaderDefVal {
    type V = ShaderDefV;

    open spec fn view(&self) -> ShaderDefV {
        match self {
            ShaderDefVal::Bool(n, v) => ShaderDefV::Bool(n@, *v),
            ShaderDefVal::Int(n, v) => ShaderDefV::Int(n@, *v as int),
            ShaderDefVal::UInt(n, v) => ShaderDefV::UInt(n@, *v as int),
        }
    }
}

impl DeepView for ShaderDefVal {
    type V = ShaderDefV;

    open spec fn deep_view(&self) -> ShaderDefV {
        self.view()
    }
}

/// The name a flag is keyed by.
pub open spec fn def_name(d: ShaderDefV) -> Seq<char> {
    match d {
        ShaderDefV::Bool(n, _) => n,
        ShaderDefV::Int(n, _) => n,
        ShaderDefV::UInt(n, _) => n,
    }
}

/// Whether `d` is the boolean flag `name`, set to true.
pub open spec fn is_bool_true(d: ShaderDefV, name: Seq<char>) -> bool {
    match d {
        ShaderDefV::Bool(n, v) => n == name && v,
        _ => false,
    }
}

/// Whether the flag set contains `name` as a boolean-true definition.
/// Absence of a name means "not set".
pub open spec fn flag_set(defs: Seq<ShaderDefV>, name: Seq<char>) -> bool {
    exists|i: int| 0 <= i < defs.len() && is_bool_true(defs[i], name)
}

/// The value of the first unsigned-integer flag named `name`, if any.
pub open spec fn first_uint(defs: Seq<ShaderDefV>, name: Seq<char>) -> Option<int>
    decreases defs.len(),
{
    if defs.len() == 0 {
        None
    } else {
        match defs[0] {
            ShaderDefV::UInt(n, v) => if n == name {
                Some(v)
            } else {
                first_uint(defs.drop_first(), name)
            },
            _ => first_uint(defs.drop_first(), name),
        }
    }
}

/// No two flags in the set share a name.
pub open spec fn unique_names(defs: Seq<ShaderDefV>) -> bool {
    forall|i: int, j: int|
        0 <= i < j < defs.len() ==> def_name(defs[i]) != def_name(defs[j])
}

/// Decimal digit for `n` in 0..10.
pub open spec fn dec_digit(n: int) -> char
    recommends
        0 <= n < 10,
{
    if n == 0 {
        '0'
    } else if n == 1 {
        '1'
    } else if n == 2 {
        '2'
    } else if n == 3 {
        '3'
    } else if n == 4 {
        '4'
    } else if n == 5 {
        '5'
    } else if n == 6 {
        '6'
    } else if n == 7 {
        '7'
    } else if n == 8 {
        '8'
    } else {
        '9'
    }
}

/// Decimal representation of a natural number, most significant digit first.
pub open spec fn dec_rep(n: nat) -> Seq<char>
    decreases n,
{
    if n < 10 {
        seq![dec_digit(n as int)]
    } else {
        dec_rep(n / 10).push(dec_digit((n % 10) as int))
    }
}

/// Decimal representation of an integer, with a leading minus sign when
/// negative.
pub open spec fn int_rep(n: int) -> Seq<char> {
    if n < 0 {
        seq!['-'] + dec_rep((-n) as nat)
    } else {
        dec_rep(n as nat)
    }
}

/// How a flag's value is written inside an entry-point symbol.
pub open spec fn def_value_str(d: ShaderDefV) -> Seq<char> {
    match d {
        ShaderDefV::Bool(_, v) => if v {
            "true"@
        } else {
            "false"@
        },
        ShaderDefV::Int(_, v) => int_rep(v),
        ShaderDefV::UInt(_, v) => int_rep(v),
    }
}

/// Relies on `String::push`: appends exactly one character to the string.
#[verifier::external_body]
pub(crate) fn push_char(s: &mut String, c: char)
    ensures
        final(s)@ == old(s)@.push(c),
{
    s.push(c);
}

/// Decimal digit character for `n` in 0..10.
fn dec_digit_char(n: u32) -> (c: char)
    requires
        n < 10,
    ensures
        c == dec_digit(n as int),
{
    if n == 0 {
        '0'
    } else if n == 1 {
        '1'
    } else if n == 2 {
        '2'
    } else if n == 3 {
        '3'
    } else if n == 4 {
        '4'
    } else if n == 5 {
        '5'
    } else if n == 6 {
        '6'
    } else if n == 7 {
        '7'
    } else if n == 8 {
        '8'
    } else {
        '9'
    }
}

/// Renders `n` in decimal.
pub fn u32_to_string(n: u32) -> (r: String)
    ensures
        r@ == dec_rep(n as nat),
    decreases n,
{
    if n < 10 {
        let mut s = String::new();
        push_char(&mut s, dec_digit_char(n));
        proof {
            assert(s@ =~= dec_rep(n as nat));
        }
        s
    } else {
        let mut s = u32_to_string(n / 10);
        push_char(&mut s, dec_digit_char(n % 10));
        proof {
            assert((n / 10) as nat == n as nat / 10);
            assert((n % 10) as nat == n as nat % 10);
        }
        s
    }
}

/// Renders `n` in decimal, with a leading minus sign when negative.
pub fn i32_to_string(n: i32) -> (r: String)
    ensures
        r@ == int_rep(n as int),
{
    if n < 0 {
        let wide: i64 = -(n as i64);
        assert(0 <= wide <= 0x8000_0000);
        let mag: u32 = wide as u32;
        let mut s = String::from_str("-");
        let digits = u32_to_string(mag);
        s.append(digits.as_str());
        proof {
            reveal_strlit("-");
            assert(s@ =~= int_rep(n as int));
        }
        s
    } else {
        u32_to_string(n as u32)
    }
}

/// The string a flag's value is written as: `true`/`false` for booleans,
/// decimal digits for integers.
pub fn def_value_string(d: &ShaderDefVal) -> (r: String)
    ensures
        r@ == def_value_str(d@),
{
    match d {
        ShaderDefVal::Bool(_, v) => {
            if *v {
                String::from_str("true")
            } else {
                String::from_str("false")
            }
        },
        ShaderDefVal::Int(_, v) => i32_to_string(*v),
        ShaderDefVal::UInt(_, v) => u32_to_string(*v),
    }
}

/// The name a flag is keyed by.
pub fn def_name_string(d: &ShaderDefVal) -> (r: &String)
    ensures
        r@ == def_name(d@),
{
    match d {
        ShaderDefVal::Bool(n, _) => n,
        ShaderDefVal::Int(n, _) => n,
        ShaderDefVal::UInt(n, _) => n,
    }
}

/// The value of the first unsigned-integer flag named `name`, if any.
pub fn find_uint(defs: &Vec<ShaderDefVal>, name: &String) -> (r: Option<u32>)
    ensures
        match r {
            Some(v) => first_uint(defs.deep_view(), name@) == Some(v as int),
            None => first_uint(defs.deep_view(), name@) is None,
        },
{
    proof {
        assert(defs.deep_view().skip(0) =~= defs.deep_view());
    }
    let mut i: usize = 0;
    while i < defs.len()
        invariant
            0 <= i <= defs.len(),
            first_uint(defs.deep_view(), name@) == first_uint(
                defs.deep_view().skip(i as int),
                name@,
            ),
        decreases defs.len() - i,
    {
        proof {
            assert(defs.deep_view().skip(i as int)[0] == defs.deep_view()[i as int]);
            assert(defs.deep_view().skip(i as int).drop_first() =~= defs.deep_view().skip(i + 1));
        }
        match &defs[i] {
            ShaderDefVal::UInt(n, v) => {
                if n.eq(name) {
                    return Some(*v);
                }
            },
            _ => {},
        }
        i = i + 1;
    }
    proof {
        assert(defs.deep_view().skip(defs.len() as int).len() == 0);
    }
    None
}

/// Whether `defs` contains `name` as a boolean-true definition.
pub fn flag_enabled(defs: &Vec<ShaderDefVal>, name: &String) -> (r: bool)
    ensures
        r == flag_set(defs.deep_view(), name@),
{
    let mut i: usize = 0;
    while i < defs.len()
        invariant
            0 <= i <= defs.len(),
            !flag_set(defs.deep_view().subrange(0, i as int), name@),
        decreases defs.len() - i,
    {
        let hit = match &defs[i] {
            ShaderDefVal::Bool(n, v) => *v && n.eq(name),
            _ => false,
        };
        if hit {
            assert(is_bool_true(defs.deep_view()[i as int], name@));
            return true;
        }
        proof {
            assert(defs.deep_view().subrange(0, i + 1 as int)
                =~= defs.deep_view().subrange(0, i as int).push(defs.deep_view()[i as int]));
        }
        i = i + 1;
    }
    proof {
        assert(defs.deep_view().subrange(0, defs.len() as int) =~= defs.deep_view());
    }
    false
}

} // verus!
