//! Resolving maintainers to the packages they maintain.  The package
//! index is one large JSON document: its `packages` object maps every
//! package name to metadata, and a package belongs to a maintainer when
//! some element of `meta.maintainers` carries that maintainer's identity
//! under `github`.  The document arrives brotli-compressed; the walk over
//! the decompressed bytes visits every package entry once and never
//! builds the document as a whole.

use vstd::prelude::*;
use vstd::utf8::{decode_utf8, encode_scalar, encode_utf8, valid_utf8};
use crate::scan::{lemma_sp_ws_ge, lemma_sp_ws_le, sp_guard, sp_ws};

verus! {

broadcast use lemma_sp_ws_ge, lemma_sp_ws_le;

pub const B_QUOTE: u8 = 34;

pub const B_BSLASH: u8 = 92;

pub const B_LBRACE: u8 = 123;

pub const B_RBRACE: u8 = 125;

pub const B_LBRACK: u8 = 91;

pub const B_RBRACK: u8 = 93;

pub const B_COLON: u8 = 58;

pub const B_COMMA: u8 = 44;

/// Bytes that may continue a number once one has started.
pub open spec fn is_num_b(b: u8) -> bool {
    (48 <= b && b <= 57) || b == 43 || b == 45 || b == 46 || b == 101 || b == 69
}

/// The position one past the closing quote of a string whose content
/// starts at `i`; escapes keep the byte after the backslash, control
/// bytes are refused.
pub open spec fn sp_str_end_tail(s: Seq<u8>, i: int) -> Option<int>
    decreases s.len() - i,
{
    if i < 0 || i >= s.len() {
        None
    } else if s[i] == B_QUOTE {
        Some(i + 1)
    } else if s[i] == B_BSLASH {
        if i + 2 <= s.len() {
            sp_str_end_tail(s, i + 2)
        } else {
            None
        }
    } else if s[i] < 32 {
        None
    } else {
        sp_str_end_tail(s, i + 1)
    }
}

/// The position one past a whole string starting with its quote at `i`.
pub open spec fn sp_str_end(s: Seq<u8>, i: int) -> Option<int> {
    if 0 <= i < s.len() && s[i] == B_QUOTE {
        sp_str_end_tail(s, i + 1)
    } else {
        None
    }
}

/// The value of one hexadecimal digit.
pub open spec fn sp_hex_val(b: u8) -> Option<int> {
    if 48 <= b && b <= 57 {
        Some((b - 48) as int)
    } else if 65 <= b && b <= 70 {
        Some((b - 55) as int)
    } else if 97 <= b && b <= 102 {
        Some((b - 87) as int)
    } else {
        None
    }
}

/// The value of four hexadecimal digits at `i`.
pub open spec fn sp_hex4(s: Seq<u8>, i: int) -> Option<int> {
    if 0 <= i && i + 4 <= s.len() {
        match (sp_hex_val(s[i]), sp_hex_val(s[i + 1]), sp_hex_val(s[i + 2]), sp_hex_val(
            s[i + 3],
        )) {
            (Some(a), Some(b), Some(c), Some(d)) => Some(a * 0x1000 + b * 0x100 + c * 0x10 + d),
            _ => None,
        }
    } else {
        None
    }
}

/// Decode a string's content from `i` on, the decoded bytes of the part
/// already read in `acc`: the decoded content and the position one past
/// the closing quote.  Escapes are decoded, `\u` escapes to the UTF-8
/// bytes of the scalar, surrogate pairs combined; lone surrogates,
/// control bytes and unknown escapes are refused.
pub open spec fn sp_str_val_tail(s: Seq<u8>, i: int, acc: Seq<u8>) -> Option<(Seq<u8>, int)>
    decreases s.len() - i,
{
    if i < 0 || i >= s.len() {
        None
    } else if s[i] == B_QUOTE {
        Some((acc, i + 1))
    } else if s[i] == B_BSLASH {
        if i + 1 >= s.len() {
            None
        } else {
            let e = s[i + 1];
            if e == B_QUOTE || e == B_BSLASH || e == 47 {
                sp_str_val_tail(s, i + 2, acc.push(e))
            } else if e == 98 {
                sp_str_val_tail(s, i + 2, acc.push(8))
            } else if e == 102 {
                sp_str_val_tail(s, i + 2, acc.push(12))
            } else if e == 110 {
                sp_str_val_tail(s, i + 2, acc.push(10))
            } else if e == 114 {
                sp_str_val_tail(s, i + 2, acc.push(13))
            } else if e == 116 {
                sp_str_val_tail(s, i + 2, acc.push(9))
            } else if e == 117 {
                match sp_hex4(s, i + 2) {
                    None => None,
                    Some(cp) => if 0xD800 <= cp && cp < 0xDC00 {
                        if i + 12 <= s.len() && s[i + 6] == B_BSLASH && s[i + 7] == 117 {
                            match sp_hex4(s, i + 8) {
                                None => None,
                                Some(lo) => if 0xDC00 <= lo && lo < 0xE000 {
                                    sp_str_val_tail(
                                        s,
                                        i + 12,
                                        acc + encode_scalar(
                                            (0x10000 + (cp - 0xD800) * 0x400 + (lo - 0xDC00)) as u32,
                                        ),
                                    )
                                } else {
                                    None
                                },
                            }
                        } else {
                            None
                        }
                    } else if 0xDC00 <= cp && cp < 0xE000 {
                        None
                    } else {
                        sp_str_val_tail(s, i + 6, acc + encode_scalar(cp as u32))
                    },
                }
            } else {
                None
            }
        }
    } else if s[i] < 32 {
        None
    } else {
        sp_str_val_tail(s, i + 1, acc.push(s[i]))
    }
}

/// Decode a whole string starting with its quote at `i`.
pub open spec fn sp_str_val(s: Seq<u8>, i: int) -> Option<(Seq<u8>, int)> {
    if 0 <= i < s.len() && s[i] == B_QUOTE {
        sp_str_val_tail(s, i + 1, Seq::empty())
    } else {
        None
    }
}

/// The first position at or after `i` past a run of number bytes; never
/// before `i`.
pub open spec fn sp_num_end(s: Seq<u8>, i: int) -> int
    decreases s.len() - i,
{
    if 0 <= i < s.len() && is_num_b(s[i]) {
        let k = sp_num_end(s, i + 1);
        if k > i {
            k
        } else {
            i + 1
        }
    } else {
        i
    }
}

/// The position one past the JSON value starting at `i`, or nothing when
/// no value starts there.
pub open spec fn sp_skip_value(s: Seq<u8>, i: int) -> Option<int>
    decreases s.len() - i, 0int,
    via sp_skip_value_dec
{
    if i < 0 || i >= s.len() {
        None
    } else if s[i] == B_QUOTE {
        sp_str_end(s, i)
    } else if s[i] == B_LBRACE {
        sp_skip_members(s, sp_ws(s, i + 1), true)
    } else if s[i] == B_LBRACK {
        sp_skip_elems(s, sp_ws(s, i + 1), true)
    } else if s[i] == 116 {
        if i + 4 <= s.len() && s[i + 1] == 114 && s[i + 2] == 117 && s[i + 3] == 101 {
            Some(i + 4)
        } else {
            None
        }
    } else if s[i] == 102 {
        if i + 5 <= s.len() && s[i + 1] == 97 && s[i + 2] == 108 && s[i + 3] == 115 && s[i + 4]
            == 101 {
            Some(i + 5)
        } else {
            None
        }
    } else if s[i] == 110 {
        if i + 4 <= s.len() && s[i + 1] == 117 && s[i + 2] == 108 && s[i + 3] == 108 {
            Some(i + 4)
        } else {
            None
        }
    } else if s[i] == 45 || (48 <= s[i] && s[i] <= 57) {
        Some(sp_num_end(s, i))
    } else {
        None
    }
}

/// Walk the members of an object from the position of its first key (or
/// closing brace, when `first`): the position one past the closing
/// brace.  Every member's value is skipped.
pub open spec fn sp_skip_members(s: Seq<u8>, i: int, first: bool) -> Option<int>
    decreases s.len() - i, 1int,
    via sp_skip_members_dec
{
    if i < 0 || i >= s.len() {
        None
    } else if first && s[i] == B_RBRACE {
        Some(i + 1)
    } else {
        match sp_str_end(s, i) {
            None => None,
            Some(ke0) => {
                let ke = if ke0 > i {
                    ke0
                } else {
                    i + 1
                };
                let j = sp_ws(s, ke);
                if j >= s.len() || s[j] != B_COLON {
                    None
                } else {
                    let v = sp_ws(s, j + 1);
                    match sp_guard(v, sp_skip_value(s, v)) {
                        None => None,
                        Some(e) => {
                            let k = sp_ws(s, e);
                            if k >= s.len() {
                                None
                            } else if s[k] == B_COMMA {
                                sp_skip_members(s, sp_ws(s, k + 1), false)
                            } else if s[k] == B_RBRACE {
                                Some(k + 1)
                            } else {
                                None
                            }
                        },
                    }
                }
            },
        }
    }
}

/// Walk the elements of an array from the position of its first element
/// (or closing bracket, when `first`): the position one past the closing
/// bracket.  Every element is skipped.
pub open spec fn sp_skip_elems(s: Seq<u8>, i: int, first: bool) -> Option<int>
    decreases s.len() - i, 1int,
    via sp_skip_elems_dec
{
    if i < 0 || i >= s.len() {
        None
    } else if first && s[i] == B_RBRACK {
        Some(i + 1)
    } else {
        match sp_guard(i, sp_skip_value(s, i)) {
            None => None,
            Some(e) => {
                let k = sp_ws(s, e);
                if k >= s.len() {
                    None
                } else if s[k] == B_COMMA {
                    sp_skip_elems(s, sp_ws(s, k + 1), false)
                } else if s[k] == B_RBRACK {
                    Some(k + 1)
                } else {
                    None
                }
            },
        }
    }
}

/// The bytes of the member name `github`.
pub open spec fn key_github() -> Seq<u8> {
    seq![103u8, 105u8, 116u8, 104u8, 117u8, 98u8]
}

/// The bytes of the member name `meta`.
pub open spec fn key_meta() -> Seq<u8> {
    seq![109u8, 101u8, 116u8, 97u8]
}

/// The bytes of the member name `maintainers`.
pub open spec fn key_maintainers() -> Seq<u8> {
    seq![109u8, 97u8, 105u8, 110u8, 116u8, 97u8, 105u8, 110u8, 101u8, 114u8, 115u8]
}

/// The bytes of the member name `packages`.
pub open spec fn key_packages() -> Seq<u8> {
    seq![112u8, 97u8, 99u8, 107u8, 97u8, 103u8, 101u8, 115u8]
}

/// Walk one maintainer object: whether some member named `github` holds
/// a string that is one of the wanted identities, and the position one
/// past the closing brace.
pub open spec fn sp_maint_obj(s: Seq<u8>, i: int, first: bool, found: bool, maints: Seq<Seq<u8>>) -> Option<
    (bool, int),
>
    decreases s.len() - i,
    via sp_maint_obj_dec
{
    if i < 0 || i >= s.len() {
        None
    } else if first && s[i] == B_RBRACE {
        Some((found, i + 1))
    } else {
        match sp_str_val(s, i) {
            None => None,
            Some((kv, ke0)) => {
                let ke = if ke0 > i {
                    ke0
                } else {
                    i + 1
                };
                let j = sp_ws(s, ke);
                if j >= s.len() || s[j] != B_COLON {
                    None
                } else {
                    let v = sp_ws(s, j + 1);
                    let hit = if kv == key_github() && 0 <= v < s.len() && s[v] == B_QUOTE {
                        match sp_str_val(s, v) {
                            Some((gv, _)) => maints.contains(gv),
                            None => false,
                        }
                    } else {
                        false
                    };
                    match sp_guard(v, sp_skip_value(s, v)) {
                        None => None,
                        Some(e) => {
                            let k = sp_ws(s, e);
                            if k >= s.len() {
                                None
                            } else if s[k] == B_COMMA {
                                sp_maint_obj(s, sp_ws(s, k + 1), false, found || hit, maints)
                            } else if s[k] == B_RBRACE {
                                Some((found || hit, k + 1))
                            } else {
                                None
                            }
                        },
                    }
                }
            },
        }
    }
}

/// Walk the elements of a `maintainers` array: whether some element is a
/// maintainer object naming a wanted identity, and the position one past
/// the closing bracket.
pub open spec fn sp_maint_elems(s: Seq<u8>, i: int, first: bool, found: bool, maints: Seq<
    Seq<u8>,
>) -> Option<(bool, int)>
    decreases s.len() - i,
    via sp_maint_elems_dec
{
    if i < 0 || i >= s.len() {
        None
    } else if first && s[i] == B_RBRACK {
        Some((found, i + 1))
    } else {
        let stepped = if s[i] == B_LBRACE {
            match sp_maint_obj(s, sp_ws(s, i + 1), true, false, maints) {
                None => None,
                Some((f, e)) => Some((f, e)),
            }
        } else {
            match sp_guard(i, sp_skip_value(s, i)) {
                None => None,
                Some(e) => Some((false, e)),
            }
        };
        match stepped {
            None => None,
            Some((hit, e0)) => {
                let e = if e0 > i {
                    e0
                } else {
                    i + 1
                };
                let k = sp_ws(s, e);
                if k >= s.len() {
                    None
                } else if s[k] == B_COMMA {
                    sp_maint_elems(s, sp_ws(s, k + 1), false, found || hit, maints)
                } else if s[k] == B_RBRACK {
                    Some((found || hit, k + 1))
                } else {
                    None
                }
            },
        }
    }
}

/// Walk a package's `meta` object: whether its `maintainers` array names
/// a wanted identity, and the position one past the closing brace.
pub open spec fn sp_meta_obj(s: Seq<u8>, i: int, first: bool, found: bool, maints: Seq<Seq<u8>>) -> Option<
    (bool, int),
>
    decreases s.len() - i,
    via sp_meta_obj_dec
{
    if i < 0 || i >= s.len() {
        None
    } else if first && s[i] == B_RBRACE {
        Some((found, i + 1))
    } else {
        match sp_str_val(s, i) {
            None => None,
            Some((kv, ke0)) => {
                let ke = if ke0 > i {
                    ke0
                } else {
                    i + 1
                };
                let j = sp_ws(s, ke);
                if j >= s.len() || s[j] != B_COLON {
                    None
                } else {
                    let v = sp_ws(s, j + 1);
                    let stepped = if kv == key_maintainers() && 0 <= v < s.len() && s[v]
                        == B_LBRACK {
                        sp_maint_elems(s, sp_ws(s, v + 1), true, false, maints)
                    } else {
                        match sp_guard(v, sp_skip_value(s, v)) {
                            None => None,
                            Some(e) => Some((false, e)),
                        }
                    };
                    match stepped {
                        None => None,
                        Some((hit, e0)) => {
                            let e = if e0 > v {
                                e0
                            } else {
                                v + 1
                            };
                            let k = sp_ws(s, e);
                            if k >= s.len() {
                                None
                            } else if s[k] == B_COMMA {
                                sp_meta_obj(s, sp_ws(s, k + 1), false, found || hit, maints)
                            } else if s[k] == B_RBRACE {
                                Some((found || hit, k + 1))
                            } else {
                                None
                            }
                        },
                    }
                }
            },
        }
    }
}

/// Walk one package entry's object: whether its `meta.maintainers`
/// names a wanted identity, and the position one past the closing brace.
pub open spec fn sp_entry_obj(s: Seq<u8>, i: int, first: bool, found: bool, maints: Seq<Seq<u8>>) -> Option<
    (bool, int),
>
    decreases s.len() - i,
    via sp_entry_obj_dec
{
    if i < 0 || i >= s.len() {
        None
    } else if first && s[i] == B_RBRACE {
        Some((found, i + 1))
    } else {
        match sp_str_val(s, i) {
            None => None,
            Some((kv, ke0)) => {
                let ke = if ke0 > i {
                    ke0
                } else {
                    i + 1
                };
                let j = sp_ws(s, ke);
                if j >= s.len() || s[j] != B_COLON {
                    None
                } else {
                    let v = sp_ws(s, j + 1);
                    let stepped = if kv == key_meta() && 0 <= v < s.len() && s[v] == B_LBRACE {
                        sp_meta_obj(s, sp_ws(s, v + 1), true, false, maints)
                    } else {
                        match sp_guard(v, sp_skip_value(s, v)) {
                            None => None,
                            Some(e) => Some((false, e)),
                        }
                    };
                    match stepped {
                        None => None,
                        Some((hit, e0)) => {
                            let e = if e0 > v {
                                e0
                            } else {
                                v + 1
                            };
                            let k = sp_ws(s, e);
                            if k >= s.len() {
                                None
                            } else if s[k] == B_COMMA {
                                sp_entry_obj(s, sp_ws(s, k + 1), false, found || hit, maints)
                            } else if s[k] == B_RBRACE {
                                Some((found || hit, k + 1))
                            } else {
                                None
                            }
                        },
                    }
                }
            },
        }
    }
}

/// Whether one package's value (any JSON value) names a wanted identity
/// under `meta.maintainers`, and the position one past it.
pub open spec fn sp_entry(s: Seq<u8>, i: int, maints: Seq<Seq<u8>>) -> Option<(bool, int)> {
    if 0 <= i < s.len() && s[i] == B_LBRACE {
        sp_entry_obj(s, sp_ws(s, i + 1), true, false, maints)
    } else {
        match sp_guard(i, sp_skip_value(s, i)) {
            None => None,
            Some(e) => Some((false, e)),
        }
    }
}

/// Walk the `packages` object: the names of the packages whose entry
/// names a wanted identity, in document order, and the position one past
/// the closing brace.
pub open spec fn sp_pkgs_obj(s: Seq<u8>, i: int, first: bool, names: Seq<Seq<u8>>, maints: Seq<
    Seq<u8>,
>) -> Option<(Seq<Seq<u8>>, int)>
    decreases s.len() - i,
    via sp_pkgs_obj_dec
{
    if i < 0 || i >= s.len() {
        None
    } else if first && s[i] == B_RBRACE {
        Some((names, i + 1))
    } else {
        match sp_str_val(s, i) {
            None => None,
            Some((kv, ke0)) => {
                let ke = if ke0 > i {
                    ke0
                } else {
                    i + 1
                };
                let j = sp_ws(s, ke);
                if j >= s.len() || s[j] != B_COLON {
                    None
                } else {
                    let v = sp_ws(s, j + 1);
                    match sp_entry(s, v, maints) {
                        None => None,
                        Some((hit, e0)) => {
                            let e = if e0 > v {
                                e0
                            } else {
                                v + 1
                            };
                            let names2 = if hit {
                                names.push(kv)
                            } else {
                                names
                            };
                            let k = sp_ws(s, e);
                            if k >= s.len() {
                                None
                            } else if s[k] == B_COMMA {
                                sp_pkgs_obj(s, sp_ws(s, k + 1), false, names2, maints)
                            } else if s[k] == B_RBRACE {
                                Some((names2, k + 1))
                            } else {
                                None
                            }
                        },
                    }
                }
            },
        }
    }
}

/// Walk the top-level object: the collected names from every member
/// named `packages` holding an object, and the position one past the
/// closing brace.  Other members are skipped.
pub open spec fn sp_top_obj(s: Seq<u8>, i: int, first: bool, names: Seq<Seq<u8>>, maints: Seq<
    Seq<u8>,
>) -> Option<(Seq<Seq<u8>>, int)>
    decreases s.len() - i,
    via sp_top_obj_dec
{
    if i < 0 || i >= s.len() {
        None
    } else if first && s[i] == B_RBRACE {
        Some((names, i + 1))
    } else {
        match sp_str_val(s, i) {
            None => None,
            Some((kv, ke0)) => {
                let ke = if ke0 > i {
                    ke0
                } else {
                    i + 1
                };
                let j = sp_ws(s, ke);
                if j >= s.len() || s[j] != B_COLON {
                    None
                } else {
                    let v = sp_ws(s, j + 1);
                    let stepped = if kv == key_packages() && 0 <= v < s.len() && s[v]
                        == B_LBRACE {
                        sp_pkgs_obj(s, sp_ws(s, v + 1), true, names, maints)
                    } else {
                        match sp_guard(v, sp_skip_value(s, v)) {
                            None => None,
                            Some(e) => Some((names, e)),
                        }
                    };
                    match stepped {
                        None => None,
                        Some((names2, e0)) => {
                            let e = if e0 > v {
                                e0
                            } else {
                                v + 1
                            };
                            let k = sp_ws(s, e);
                            if k >= s.len() {
                                None
                            } else if s[k] == B_COMMA {
                                sp_top_obj(s, sp_ws(s, k + 1), false, names2, maints)
                            } else if s[k] == B_RBRACE {
                                Some((names2, k + 1))
                            } else {
                                None
                            }
                        },
                    }
                }
            },
        }
    }
}

/// What the package index yields: the names of the packages one of the
/// wanted maintainers maintains, in document order, or nothing when the
/// document is not a JSON object (with optional trailing whitespace).
pub open spec fn sp_index(s: Seq<u8>, maints: Seq<Seq<u8>>) -> Option<Seq<Seq<u8>>> {
    let j = sp_ws(s, 0);
    if j >= s.len() || s[j] != B_LBRACE {
        None
    } else {
        match sp_top_obj(s, sp_ws(s, j + 1), true, Seq::empty(), maints) {
            None => None,
            Some((names, e)) => if sp_ws(s, e) == s.len() {
                Some(names)
            } else {
                None
            },
        }
    }
}

#[via_fn]
proof fn sp_skip_value_dec(s: Seq<u8>, i: int) {
    broadcast use lemma_sp_ws_ge, lemma_sp_ws_le;
}

#[via_fn]
proof fn sp_skip_members_dec(s: Seq<u8>, i: int, first: bool) {
    broadcast use lemma_sp_ws_ge, lemma_sp_ws_le;
}

#[via_fn]
proof fn sp_skip_elems_dec(s: Seq<u8>, i: int, first: bool) {
    broadcast use lemma_sp_ws_ge, lemma_sp_ws_le;
}

#[via_fn]
proof fn sp_maint_obj_dec(s: Seq<u8>, i: int, first: bool, found: bool, maints: Seq<Seq<u8>>) {
    broadcast use lemma_sp_ws_ge, lemma_sp_ws_le;
}

#[via_fn]
proof fn sp_maint_elems_dec(s: Seq<u8>, i: int, first: bool, found: bool, maints: Seq<Seq<u8>>) {
    broadcast use lemma_sp_ws_ge, lemma_sp_ws_le;
}

#[via_fn]
proof fn sp_meta_obj_dec(s: Seq<u8>, i: int, first: bool, found: bool, maints: Seq<Seq<u8>>) {
    broadcast use lemma_sp_ws_ge, lemma_sp_ws_le;
}

#[via_fn]
proof fn sp_entry_obj_dec(s: Seq<u8>, i: int, first: bool, found: bool, maints: Seq<Seq<u8>>) {
    broadcast use lemma_sp_ws_ge, lemma_sp_ws_le;
}

#[via_fn]
proof fn sp_pkgs_obj_dec(s: Seq<u8>, i: int, first: bool, names: Seq<Seq<u8>>, maints: Seq<Seq<u8>>) {
    broadcast use lemma_sp_ws_ge, lemma_sp_ws_le;
}

#[via_fn]
proof fn sp_top_obj_dec(s: Seq<u8>, i: int, first: bool, names: Seq<Seq<u8>>, maints: Seq<Seq<u8>>) {
    broadcast use lemma_sp_ws_ge, lemma_sp_ws_le;
}


/// The views of a sequence of byte vectors.
pub open spec fn views_u8(s: Seq<Vec<u8>>) -> Seq<Seq<u8>> {
    s.map_values(|v: Vec<u8>| v@)
}

/// The byte form of each maintainer identity.
pub open spec fn maint_bytes(ms: Seq<String>) -> Seq<Seq<u8>> {
    ms.map_values(|m: String| encode_utf8(m@))
}

/// Why no package list could be produced.
#[derive(PartialEq, Eq, Structural, Clone, Copy, Debug)]
pub enum ResolveError {
    /// The compressed document could not be decompressed.
    BadCompression,
    /// The decompressed document is not a package index this walk
    /// understands, or a matched package name is not UTF-8.
    BadIndex,
}

/// What brotli decompression yields on given bytes: the decompressed
/// bytes, or nothing on malformed input.
pub uninterp spec fn brotli_decoded(data: Seq<u8>) -> Option<Seq<u8>>;

/// Relies on brotli's `Decompressor`, a reader adapter, drained with
/// std's `Read::read_to_end`: the decompressed form of a brotli stream,
/// refused on malformed input.  The outcome depends on the bytes alone.
#[verifier::external_body]
fn brotli_decompress(data: &Vec<u8>) -> (r: Result<Vec<u8>, ()>)
    ensures
        match r {
            Ok(v) => brotli_decoded(data@) == Some(v@),
            Err(()) => brotli_decoded(data@) is None,
        },
{
    let mut out = Vec::new();
    let mut dec = brotli::Decompressor::new(data.as_slice(), 4096);
    match std::io::Read::read_to_end(&mut dec, &mut out) {
        Ok(_) => Ok(out),
        Err(_) => Err(()),
    }
}

/// Relies on String::from_utf8: the UTF-8 reading of the bytes, refused
/// exactly when they are not valid UTF-8.
#[verifier::external_body]
fn bytes_to_string(v: Vec<u8>) -> (r: Option<String>)
    ensures
        match r {
            Some(t) => valid_utf8(v@) && t@ == decode_utf8(v@),
            None => !valid_utf8(v@),
        },
{
    match String::from_utf8(v) {
        Ok(t) => Some(t),
        Err(_) => None,
    }
}

/// The first position at or after `i` holding no whitespace.
fn ws(s: &Vec<u8>, i: usize) -> (r: usize)
    requires
        i <= s@.len(),
    ensures
        r as int == sp_ws(s@, i as int),
        i <= r <= s@.len(),
{
    let n = s.len();
    let mut j = i;
    while j < n && (s[j] == 32 || s[j] == 9 || s[j] == 10 || s[j] == 13)
        invariant
            i <= j <= n,
            n == s@.len(),
            sp_ws(s@, i as int) == sp_ws(s@, j as int),
        decreases n - j,
    {
        proof {
            assert(sp_ws(s@, j as int) == sp_ws(s@, j + 1));
        }
        j = j + 1;
    }
    j
}

/// The position one past the string starting with its quote at `i`.
fn str_end(s: &Vec<u8>, i: usize) -> (r: Option<usize>)
    ensures
        match r {
            Some(e) => sp_str_end(s@, i as int) == Some(e as int) && i < e <= s@.len(),
            None => sp_str_end(s@, i as int) is None,
        },
{
    let n = s.len();
    if i >= n || s[i] != B_QUOTE {
        return None;
    }
    let mut j = i + 1;
    loop
        invariant
            i < j <= n,
            n == s@.len(),
            s@[i as int] == B_QUOTE,
            sp_str_end(s@, i as int) == sp_str_end_tail(s@, j as int),
        decreases n - j,
    {
        if j >= n {
            return None;
        }
        let b = s[j];
        if b == B_QUOTE {
            return Some(j + 1);
        }
        if b == B_BSLASH {
            if n - j >= 2 {
                proof {
                    assert(sp_str_end_tail(s@, j as int) == sp_str_end_tail(s@, j + 2));
                }
                j = j + 2;
            } else {
                return None;
            }
        } else if b < 32 {
            return None;
        } else {
            proof {
                assert(sp_str_end_tail(s@, j as int) == sp_str_end_tail(s@, j + 1));
            }
            j = j + 1;
        }
    }
}

/// The value of one hexadecimal digit.
fn hexv(b: u8) -> (r: Option<u32>)
    ensures
        match r {
            Some(v) => sp_hex_val(b) == Some(v as int) && v < 16,
            None => sp_hex_val(b) is None,
        },
{
    if 48 <= b && b <= 57 {
        Some((b - 48) as u32)
    } else if 65 <= b && b <= 70 {
        Some((b - 55) as u32)
    } else if 97 <= b && b <= 102 {
        Some((b - 87) as u32)
    } else {
        None
    }
}

/// The value of four hexadecimal digits at `i`.
fn hex4(s: &Vec<u8>, i: usize) -> (r: Option<u32>)
    ensures
        match r {
            Some(v) => sp_hex4(s@, i as int) == Some(v as int) && v < 0x10000,
            None => sp_hex4(s@, i as int) is None,
        },
{
    if s.len() < 4 || i > s.len() - 4 {
        return None;
    }
    match (hexv(s[i]), hexv(s[i + 1]), hexv(s[i + 2]), hexv(s[i + 3])) {
        (Some(a), Some(b), Some(c), Some(d)) => Some(a * 0x1000 + b * 0x100 + c * 0x10 + d),
        _ => None,
    }
}

/// Append the UTF-8 encoding of one scalar.
fn push_scalar(out: &mut Vec<u8>, cp: u32)
    requires
        cp <= 0x10FFFF,
        !(0xD800 <= cp && cp <= 0xDFFF),
    ensures
        final(out)@ == old(out)@ + encode_scalar(cp),
{
    if cp <= 0x7F {
        out.push((cp & 0x7F) as u8);
        proof {
            assert(out@ =~= old(out)@ + encode_scalar(cp));
        }
    } else if cp <= 0x7FF {
        out.push(0xC0 | ((cp >> 6) & 0x1F) as u8);
        out.push(0x80 | (cp & 0x3F) as u8);
        proof {
            assert(out@ =~= old(out)@ + encode_scalar(cp));
        }
    } else if cp <= 0xFFFF {
        out.push(0xE0 | ((cp >> 12) & 0x0F) as u8);
        out.push(0x80 | ((cp >> 6) & 0x3F) as u8);
        out.push(0x80 | (cp & 0x3F) as u8);
        proof {
            assert(out@ =~= old(out)@ + encode_scalar(cp));
        }
    } else {
        out.push(0xF0 | ((cp >> 18) & 0x7) as u8);
        out.push(0x80 | ((cp >> 12) & 0x3F) as u8);
        out.push(0x80 | ((cp >> 6) & 0x3F) as u8);
        out.push(0x80 | (cp & 0x3F) as u8);
        proof {
            assert(out@ =~= old(out)@ + encode_scalar(cp));
        }
    }
}

/// Decode the string starting with its quote at `i`.
fn str_val(s: &Vec<u8>, i: usize) -> (r: Option<(Vec<u8>, usize)>)
    ensures
        match r {
            Some(p) => sp_str_val(s@, i as int) == Some((p.0@, p.1 as int)) && i < p.1 <= s@.len(),
            None => sp_str_val(s@, i as int) is None,
        },
{
    let n = s.len();
    if i >= n || s[i] != B_QUOTE {
        return None;
    }
    let mut acc: Vec<u8> = Vec::new();
    let mut j = i + 1;
    loop
        invariant
            i < j <= n,
            n == s@.len(),
            s@[i as int] == B_QUOTE,
            sp_str_val(s@, i as int) == sp_str_val_tail(s@, j as int, acc@),
        decreases n - j,
    {
        if j >= n {
            return None;
        }
        let b = s[j];
        if b == B_QUOTE {
            return Some((acc, j + 1));
        }
        if b == B_BSLASH {
            if n - j < 2 {
                return None;
            }
            let e = s[j + 1];
            if e == B_QUOTE || e == B_BSLASH || e == 47 {
                proof {
                    assert(sp_str_val_tail(s@, j as int, acc@) == sp_str_val_tail(
                        s@,
                        j + 2,
                        acc@.push(e),
                    ));
                }
                acc.push(e);
                j = j + 2;
            } else if e == 98 {
                proof {
                    assert(sp_str_val_tail(s@, j as int, acc@) == sp_str_val_tail(
                        s@,
                        j + 2,
                        acc@.push(8),
                    ));
                }
                acc.push(8);
                j = j + 2;
            } else if e == 102 {
                proof {
                    assert(sp_str_val_tail(s@, j as int, acc@) == sp_str_val_tail(
                        s@,
                        j + 2,
                        acc@.push(12),
                    ));
                }
                acc.push(12);
                j = j + 2;
            } else if e == 110 {
                proof {
                    assert(sp_str_val_tail(s@, j as int, acc@) == sp_str_val_tail(
                        s@,
                        j + 2,
                        acc@.push(10),
                    ));
                }
                acc.push(10);
                j = j + 2;
            } else if e == 114 {
                proof {
                    assert(sp_str_val_tail(s@, j as int, acc@) == sp_str_val_tail(
                        s@,
                        j + 2,
                        acc@.push(13),
                    ));
                }
                acc.push(13);
                j = j + 2;
            } else if e == 116 {
                proof {
                    assert(sp_str_val_tail(s@, j as int, acc@) == sp_str_val_tail(
                        s@,
                        j + 2,
                        acc@.push(9),
                    ));
                }
                acc.push(9);
                j = j + 2;
            } else if e == 117 {
                match hex4(s, j + 2) {
                    None => {
                        return None;
                    },
                    Some(cp) => {
                        if 0xD800 <= cp && cp < 0xDC00 {
                            if n - j >= 12 && s[j + 6] == B_BSLASH && s[j + 7] == 117 {
                                match hex4(s, j + 8) {
                                    None => {
                                        return None;
                                    },
                                    Some(lo) => {
                                        if 0xDC00 <= lo && lo < 0xE000 {
                                            let combined = 0x10000 + (cp - 0xD800) * 0x400 + (lo
                                                - 0xDC00);
                                            proof {
                                                assert(sp_str_val_tail(s@, j as int, acc@)
                                                    == sp_str_val_tail(
                                                    s@,
                                                    j + 12,
                                                    acc@ + encode_scalar(combined),
                                                ));
                                            }
                                            push_scalar(&mut acc, combined);
                                            j = j + 12;
                                        } else {
                                            return None;
                                        }
                                    },
                                }
                            } else {
                                return None;
                            }
                        } else if 0xDC00 <= cp && cp < 0xE000 {
                            return None;
                        } else {
                            proof {
                                assert(sp_str_val_tail(s@, j as int, acc@) == sp_str_val_tail(
                                    s@,
                                    j + 6,
                                    acc@ + encode_scalar(cp),
                                ));
                            }
                            push_scalar(&mut acc, cp);
                            j = j + 6;
                        }
                    },
                }
            } else {
                return None;
            }
        } else if b < 32 {
            return None;
        } else {
            proof {
                assert(sp_str_val_tail(s@, j as int, acc@) == sp_str_val_tail(
                    s@,
                    j + 1,
                    acc@.push(b),
                ));
            }
            acc.push(b);
            j = j + 1;
        }
    }
}

/// The first position at or after `i` past a run of number bytes.
fn num_end(s: &Vec<u8>, i: usize) -> (r: usize)
    requires
        i <= s@.len(),
    ensures
        r as int == sp_num_end(s@, i as int),
        i <= r <= s@.len(),
{
    let n = s.len();
    let mut j = i;
    while j < n && ((48 <= s[j] && s[j] <= 57) || s[j] == 43 || s[j] == 45 || s[j] == 46 || s[j]
        == 101 || s[j] == 69)
        invariant
            i <= j <= n,
            n == s@.len(),
            sp_num_end(s@, i as int) == sp_num_end(s@, j as int),
        decreases n - j,
    {
        proof {
            assert(sp_num_end(s@, j as int) == sp_num_end(s@, j + 1));
        }
        j = j + 1;
    }
    j
}

/// The position one past the JSON value starting at `i`.
fn skip_value(s: &Vec<u8>, i: usize) -> (r: Option<usize>)
    ensures
        match r {
            Some(e) => sp_skip_value(s@, i as int) == Some(e as int) && i < e <= s@.len(),
            None => sp_skip_value(s@, i as int) is None,
        },
    decreases s@.len() - i, 0int,
{
    let n = s.len();
    if i >= n {
        return None;
    }
    let b = s[i];
    if b == B_QUOTE {
        str_end(s, i)
    } else if b == B_LBRACE {
        skip_members(s, ws(s, i + 1), true)
    } else if b == B_LBRACK {
        skip_elems(s, ws(s, i + 1), true)
    } else if b == 116 {
        if n - i >= 4 && s[i + 1] == 114 && s[i + 2] == 117 && s[i + 3] == 101 {
            Some(i + 4)
        } else {
            None
        }
    } else if b == 102 {
        if n - i >= 5 && s[i + 1] == 97 && s[i + 2] == 108 && s[i + 3] == 115 && s[i + 4] == 101 {
            Some(i + 5)
        } else {
            None
        }
    } else if b == 110 {
        if n - i >= 4 && s[i + 1] == 117 && s[i + 2] == 108 && s[i + 3] == 108 {
            Some(i + 4)
        } else {
            None
        }
    } else if b == 45 || (48 <= b && b <= 57) {
        let e = num_end(s, i);
        proof {
            assert(sp_num_end(s@, i as int) >= i + 1);
        }
        Some(e)
    } else {
        None
    }
}

/// Walk an object's members from `i`, skipping every value.
fn skip_members(s: &Vec<u8>, i: usize, first: bool) -> (r: Option<usize>)
    ensures
        match r {
            Some(e) => sp_skip_members(s@, i as int, first) == Some(e as int) && i < e <= s@.len(),
            None => sp_skip_members(s@, i as int, first) is None,
        },
    decreases s@.len() - i, 1int,
{
    let n = s.len();
    if i >= n {
        return None;
    }
    if first && s[i] == B_RBRACE {
        return Some(i + 1);
    }
    match str_end(s, i) {
        None => None,
        Some(ke) => {
            let j = ws(s, ke);
            if j >= n || s[j] != B_COLON {
                return None;
            }
            let v = ws(s, j + 1);
            match skip_value(s, v) {
                None => None,
                Some(e) => {
                    let k = ws(s, e);
                    if k >= n {
                        None
                    } else if s[k] == B_COMMA {
                        skip_members(s, ws(s, k + 1), false)
                    } else if s[k] == B_RBRACE {
                        Some(k + 1)
                    } else {
                        None
                    }
                },
            }
        },
    }
}

/// Walk an array's elements from `i`, skipping each.
fn skip_elems(s: &Vec<u8>, i: usize, first: bool) -> (r: Option<usize>)
    ensures
        match r {
            Some(e) => sp_skip_elems(s@, i as int, first) == Some(e as int) && i < e <= s@.len(),
            None => sp_skip_elems(s@, i as int, first) is None,
        },
    decreases s@.len() - i, 1int,
{
    let n = s.len();
    if i >= n {
        return None;
    }
    if first && s[i] == B_RBRACK {
        return Some(i + 1);
    }
    match skip_value(s, i) {
        None => None,
        Some(e) => {
            let k = ws(s, e);
            if k >= n {
                None
            } else if s[k] == B_COMMA {
                skip_elems(s, ws(s, k + 1), false)
            } else if s[k] == B_RBRACK {
                Some(k + 1)
            } else {
                None
            }
        },
    }
}

/// Whether two byte vectors hold the same bytes.
fn eq_bytes(a: &Vec<u8>, b: &Vec<u8>) -> (r: bool)
    ensures
        r == (a@ == b@),
{
    if a.len() != b.len() {
        proof {
            assert(a@ != b@);
        }
        return false;
    }
    let n = a.len();
    let mut k: usize = 0;
    while k < n
        invariant
            k <= n,
            n == a@.len(),
            n == b@.len(),
            forall|t: int| 0 <= t < k ==> a@[t] == b@[t],
        decreases n - k,
    {
        if a[k] != b[k] {
            return false;
        }
        k = k + 1;
    }
    proof {
        assert(a@ =~= b@);
    }
    true
}

/// Whether some wanted identity holds these bytes.
fn contains_bytes(maints: &Vec<Vec<u8>>, x: &Vec<u8>) -> (r: bool)
    ensures
        r == views_u8(maints@).contains(x@),
{
    let n = maints.len();
    let mut k: usize = 0;
    while k < n
        invariant
            k <= n,
            n == maints@.len(),
            forall|t: int| 0 <= t < k ==> views_u8(maints@)[t] != x@,
        decreases n - k,
    {
        if eq_bytes(&maints[k], x) {
            proof {
                assert(views_u8(maints@)[k as int] == x@);
            }
            return true;
        }
        k = k + 1;
    }
    false
}

/// The bytes of `github`.
fn github_key() -> (v: Vec<u8>)
    ensures
        v@ == key_github(),
{
    let mut v: Vec<u8> = Vec::new();
    v.push(103);
    v.push(105);
    v.push(116);
    v.push(104);
    v.push(117);
    v.push(98);
    proof {
        assert(v@ =~= key_github());
    }
    v
}

/// The bytes of `meta`.
fn meta_key() -> (v: Vec<u8>)
    ensures
        v@ == key_meta(),
{
    let mut v: Vec<u8> = Vec::new();
    v.push(109);
    v.push(101);
    v.push(116);
    v.push(97);
    proof {
        assert(v@ =~= key_meta());
    }
    v
}

/// The bytes of `maintainers`.
fn maintainers_key() -> (v: Vec<u8>)
    ensures
        v@ == key_maintainers(),
{
    let mut v: Vec<u8> = Vec::new();
    v.push(109);
    v.push(97);
    v.push(105);
    v.push(110);
    v.push(116);
    v.push(97);
    v.push(105);
    v.push(110);
    v.push(101);
    v.push(114);
    v.push(115);
    proof {
        assert(v@ =~= key_maintainers());
    }
    v
}

/// The bytes of `packages`.
fn packages_key() -> (v: Vec<u8>)
    ensures
        v@ == key_packages(),
{
    let mut v: Vec<u8> = Vec::new();
    v.push(112);
    v.push(97);
    v.push(99);
    v.push(107);
    v.push(97);
    v.push(103);
    v.push(101);
    v.push(115);
    proof {
        assert(v@ =~= key_packages());
    }
    v
}

/// Walk one maintainer object for a wanted `github` identity.
fn maint_obj(s: &Vec<u8>, i: usize, first: bool, found: bool, maints: &Vec<Vec<u8>>) -> (r: Option<
    (bool, usize),
>)
    ensures
        match r {
            Some(p) => sp_maint_obj(s@, i as int, first, found, views_u8(maints@)) == Some(
                (p.0, p.1 as int),
            ) && i < p.1 <= s@.len(),
            None => sp_maint_obj(s@, i as int, first, found, views_u8(maints@)) is None,
        },
    decreases s@.len() - i,
{
    let n = s.len();
    if i >= n {
        return None;
    }
    if first && s[i] == B_RBRACE {
        return Some((found, i + 1));
    }
    match str_val(s, i) {
        None => None,
        Some((kv, ke)) => {
            let j = ws(s, ke);
            if j >= n || s[j] != B_COLON {
                return None;
            }
            let v = ws(s, j + 1);
            let gk = github_key();
            let hit = if eq_bytes(&kv, &gk) && v < n && s[v] == B_QUOTE {
                match str_val(s, v) {
                    Some((gv, _ge)) => contains_bytes(maints, &gv),
                    None => false,
                }
            } else {
                false
            };
            match skip_value(s, v) {
                None => None,
                Some(e) => {
                    let k = ws(s, e);
                    if k >= n {
                        None
                    } else if s[k] == B_COMMA {
                        maint_obj(s, ws(s, k + 1), false, found || hit, maints)
                    } else if s[k] == B_RBRACE {
                        Some((found || hit, k + 1))
                    } else {
                        None
                    }
                },
            }
        },
    }
}

/// Walk a `maintainers` array for a wanted identity.
fn maint_elems(s: &Vec<u8>, i: usize, first: bool, found: bool, maints: &Vec<Vec<u8>>) -> (r:
    Option<(bool, usize)>)
    ensures
        match r {
            Some(p) => sp_maint_elems(s@, i as int, first, found, views_u8(maints@)) == Some(
                (p.0, p.1 as int),
            ) && i < p.1 <= s@.len(),
            None => sp_maint_elems(s@, i as int, first, found, views_u8(maints@)) is None,
        },
    decreases s@.len() - i,
{
    let n = s.len();
    if i >= n {
        return None;
    }
    if first && s[i] == B_RBRACK {
        return Some((found, i + 1));
    }
    let stepped: Option<(bool, usize)> = if s[i] == B_LBRACE {
        maint_obj(s, ws(s, i + 1), true, false, maints)
    } else {
        match skip_value(s, i) {
            None => None,
            Some(e) => Some((false, e)),
        }
    };
    match stepped {
        None => None,
        Some((hit, e)) => {
            let k = ws(s, e);
            if k >= n {
                None
            } else if s[k] == B_COMMA {
                maint_elems(s, ws(s, k + 1), false, found || hit, maints)
            } else if s[k] == B_RBRACK {
                Some((found || hit, k + 1))
            } else {
                None
            }
        },
    }
}

/// Walk a `meta` object for a wanted identity under `maintainers`.
fn meta_obj(s: &Vec<u8>, i: usize, first: bool, found: bool, maints: &Vec<Vec<u8>>) -> (r: Option<
    (bool, usize),
>)
    ensures
        match r {
            Some(p) => sp_meta_obj(s@, i as int, first, found, views_u8(maints@)) == Some(
                (p.0, p.1 as int),
            ) && i < p.1 <= s@.len(),
            None => sp_meta_obj(s@, i as int, first, found, views_u8(maints@)) is None,
        },
    decreases s@.len() - i,
{
    let n = s.len();
    if i >= n {
        return None;
    }
    if first && s[i] == B_RBRACE {
        return Some((found, i + 1));
    }
    match str_val(s, i) {
        None => None,
        Some((kv, ke)) => {
            let j = ws(s, ke);
            if j >= n || s[j] != B_COLON {
                return None;
            }
            let v = ws(s, j + 1);
            let mk = maintainers_key();
            let stepped: Option<(bool, usize)> = if eq_bytes(&kv, &mk) && v < n && s[v]
                == B_LBRACK {
                maint_elems(s, ws(s, v + 1), true, false, maints)
            } else {
                match skip_value(s, v) {
                    None => None,
                    Some(e) => Some((false, e)),
                }
            };
            match stepped {
                None => None,
                Some((hit, e)) => {
                    let k = ws(s, e);
                    if k >= n {
                        None
                    } else if s[k] == B_COMMA {
                        meta_obj(s, ws(s, k + 1), false, found || hit, maints)
                    } else if s[k] == B_RBRACE {
                        Some((found || hit, k + 1))
                    } else {
                        None
                    }
                },
            }
        },
    }
}

/// Walk one package entry's object for `meta.maintainers`.
fn entry_obj(s: &Vec<u8>, i: usize, first: bool, found: bool, maints: &Vec<Vec<u8>>) -> (r: Option<
    (bool, usize),
>)
    ensures
        match r {
            Some(p) => sp_entry_obj(s@, i as int, first, found, views_u8(maints@)) == Some(
                (p.0, p.1 as int),
            ) && i < p.1 <= s@.len(),
            None => sp_entry_obj(s@, i as int, first, found, views_u8(maints@)) is None,
        },
    decreases s@.len() - i,
{
    let n = s.len();
    if i >= n {
        return None;
    }
    if first && s[i] == B_RBRACE {
        return Some((found, i + 1));
    }
    match str_val(s, i) {
        None => None,
        Some((kv, ke)) => {
            let j = ws(s, ke);
            if j >= n || s[j] != B_COLON {
                return None;
            }
            let v = ws(s, j + 1);
            let mk = meta_key();
            let stepped: Option<(bool, usize)> = if eq_bytes(&kv, &mk) && v < n && s[v]
                == B_LBRACE {
                meta_obj(s, ws(s, v + 1), true, false, maints)
            } else {
                match skip_value(s, v) {
                    None => None,
                    Some(e) => Some((false, e)),
                }
            };
            match stepped {
                None => None,
                Some((hit, e)) => {
                    let k = ws(s, e);
                    if k >= n {
                        None
                    } else if s[k] == B_COMMA {
                        entry_obj(s, ws(s, k + 1), false, found || hit, maints)
                    } else if s[k] == B_RBRACE {
                        Some((found || hit, k + 1))
                    } else {
                        None
                    }
                },
            }
        },
    }
}

/// Whether one package's value names a wanted identity.
fn entry(s: &Vec<u8>, i: usize, maints: &Vec<Vec<u8>>) -> (r: Option<(bool, usize)>)
    ensures
        match r {
            Some(p) => sp_entry(s@, i as int, views_u8(maints@)) == Some((p.0, p.1 as int)) && i
                < p.1 <= s@.len(),
            None => sp_entry(s@, i as int, views_u8(maints@)) is None,
        },
{
    let n = s.len();
    if i < n && s[i] == B_LBRACE {
        entry_obj(s, ws(s, i + 1), true, false, maints)
    } else {
        match skip_value(s, i) {
            None => None,
            Some(e) => Some((false, e)),
        }
    }
}

/// Walk the `packages` object, collecting matching package names.
fn pkgs_obj(s: &Vec<u8>, i: usize, first: bool, names: Vec<Vec<u8>>, maints: &Vec<Vec<u8>>) -> (r:
    Option<(Vec<Vec<u8>>, usize)>)
    ensures
        match r {
            Some(p) => sp_pkgs_obj(s@, i as int, first, views_u8(names@), views_u8(maints@))
                == Some((views_u8(p.0@), p.1 as int)) && i < p.1 <= s@.len(),
            None => sp_pkgs_obj(s@, i as int, first, views_u8(names@), views_u8(maints@)) is None,
        },
    decreases s@.len() - i,
{
    let n = s.len();
    if i >= n {
        return None;
    }
    if first && s[i] == B_RBRACE {
        return Some((names, i + 1));
    }
    match str_val(s, i) {
        None => None,
        Some((kv, ke)) => {
            let j = ws(s, ke);
            if j >= n || s[j] != B_COLON {
                return None;
            }
            let v = ws(s, j + 1);
            match entry(s, v, maints) {
                None => None,
                Some((hit, e)) => {
                    let mut names2 = names;
                    if hit {
                        names2.push(kv);
                        proof {
                            assert(views_u8(names2@) =~= views_u8(names@).push(kv@));
                        }
                    }
                    let k = ws(s, e);
                    if k >= n {
                        None
                    } else if s[k] == B_COMMA {
                        pkgs_obj(s, ws(s, k + 1), false, names2, maints)
                    } else if s[k] == B_RBRACE {
                        Some((names2, k + 1))
                    } else {
                        None
                    }
                },
            }
        },
    }
}

/// Walk the top-level object, collecting from each `packages` member.
fn top_obj(s: &Vec<u8>, i: usize, first: bool, names: Vec<Vec<u8>>, maints: &Vec<Vec<u8>>) -> (r:
    Option<(Vec<Vec<u8>>, usize)>)
    ensures
        match r {
            Some(p) => sp_top_obj(s@, i as int, first, views_u8(names@), views_u8(maints@))
                == Some((views_u8(p.0@), p.1 as int)) && i < p.1 <= s@.len(),
            None => sp_top_obj(s@, i as int, first, views_u8(names@), views_u8(maints@)) is None,
        },
    decreases s@.len() - i,
{
    let n = s.len();
    if i >= n {
        return None;
    }
    if first && s[i] == B_RBRACE {
        return Some((names, i + 1));
    }
    match str_val(s, i) {
        None => None,
        Some((kv, ke)) => {
            let j = ws(s, ke);
            if j >= n || s[j] != B_COLON {
                return None;
            }
            let v = ws(s, j + 1);
            let pk = packages_key();
            let stepped: Option<(Vec<Vec<u8>>, usize)> = if eq_bytes(&kv, &pk) && v < n && s[v]
                == B_LBRACE {
                pkgs_obj(s, ws(s, v + 1), true, names, maints)
            } else {
                match skip_value(s, v) {
                    None => None,
                    Some(e) => Some((names, e)),
                }
            };
            match stepped {
                None => None,
                Some((names2, e)) => {
                    let k = ws(s, e);
                    if k >= n {
                        None
                    } else if s[k] == B_COMMA {
                        top_obj(s, ws(s, k + 1), false, names2, maints)
                    } else if s[k] == B_RBRACE {
                        Some((names2, k + 1))
                    } else {
                        None
                    }
                },
            }
        },
    }
}

/// The matching package names of the whole index document.
fn index_names(s: &Vec<u8>, maints: &Vec<Vec<u8>>) -> (r: Option<Vec<Vec<u8>>>)
    ensures
        match r {
            Some(ns) => sp_index(s@, views_u8(maints@)) == Some(views_u8(ns@)),
            None => sp_index(s@, views_u8(maints@)) is None,
        },
{
    let n = s.len();
    let j = ws(s, 0);
    if j >= n || s[j] != B_LBRACE {
        return None;
    }
    let start: Vec<Vec<u8>> = Vec::new();
    proof {
        assert(views_u8(start@) =~= Seq::<Seq<u8>>::empty());
    }
    match top_obj(s, ws(s, j + 1), true, start, maints) {
        None => None,
        Some((ns, e)) => {
            if ws(s, e) == n {
                Some(ns)
            } else {
                None
            }
        },
    }
}

/// Whether the document reads as a package index whose matched names
/// are all UTF-8: exactly then a package list is produced.
/// Whether every byte name is valid UTF-8.
pub open spec fn all_utf8(ns: Seq<Seq<u8>>) -> bool {
    forall|k: int| 0 <= k < ns.len() ==> valid_utf8(ns[k])
}

pub open spec fn index_readable(doc: Seq<u8>, mb: Seq<Seq<u8>>) -> bool {
    match sp_index(doc, mb) {
        Some(ns) => all_utf8(ns),
        None => false,
    }
}

/// Whether the decoded strings spell out the given byte names.
pub open spec fn names_decoded(out: Seq<String>, ns: Seq<Seq<u8>>) -> bool {
    &&& out.len() == ns.len()
    &&& forall|k: int| 0 <= k < ns.len() ==> valid_utf8(ns[k]) && out[k]@ == decode_utf8(ns[k])
}

/// The packages the wanted maintainers maintain, read from the
/// decompressed package index: exactly the names whose entry carries one
/// of the identities under `meta.maintainers`, in document order, each
/// name decoded from UTF-8.  A document the walk does not understand,
/// and a matched name that is not UTF-8, are refused.
pub fn packages_of_maintainers(doc: &Vec<u8>, maintainers: &Vec<String>) -> (r: Result<
    Vec<String>,
    ResolveError,
>)
    ensures
        match r {
            Ok(out) => sp_index(doc@, maint_bytes(maintainers@)) matches Some(ns) && names_decoded(
                out@,
                ns,
            ),
            Err(e) => e == ResolveError::BadIndex && !index_readable(
                doc@,
                maint_bytes(maintainers@),
            ),
        },
{
    let mut mb: Vec<Vec<u8>> = Vec::new();
    let mut t: usize = 0;
    while t < maintainers.len()
        invariant
            t <= maintainers@.len(),
            views_u8(mb@) == maint_bytes(maintainers@).take(t as int),
        decreases maintainers@.len() - t,
    {
        let ghost pre = mb@;
        let b = maintainers[t].as_str().as_bytes_vec();
        proof {
            assert(b@ == encode_utf8(maintainers@[t as int]@));
            assert(maint_bytes(maintainers@)[t as int] == encode_utf8(maintainers@[t as int]@));
        }
        mb.push(b);
        proof {
            assert(views_u8(mb@) =~= views_u8(pre).push(b@));
            assert(maint_bytes(maintainers@).take(t + 1) =~= maint_bytes(maintainers@).take(
                t as int,
            ).push(encode_utf8(maintainers@[t as int]@)));
            assert(views_u8(mb@) =~= maint_bytes(maintainers@).take(t + 1));
        }
        t = t + 1;
    }
    proof {
        assert(maint_bytes(maintainers@).take(maintainers@.len() as int) =~= maint_bytes(
            maintainers@,
        ));
    }
    match index_names(doc, &mb) {
        None => Err(ResolveError::BadIndex),
        Some(ns) => {
            let ghost nsv = views_u8(ns@);
            match decode_names(ns) {
                Some(out) => Ok(out),
                None => {
                    proof {
                        assert(!all_utf8(nsv));
                    }
                    Err(ResolveError::BadIndex)
                },
            }
        },
    }
}

/// Decode every byte name as UTF-8, refused when one is not.
fn decode_names(ns: Vec<Vec<u8>>) -> (r: Option<Vec<String>>)
    ensures
        match r {
            Some(out) => names_decoded(out@, views_u8(ns@)),
            None => !all_utf8(views_u8(ns@)),
        },
{
    let ghost nsv = views_u8(ns@);
    let mut out: Vec<String> = Vec::new();
    let mut k: usize = 0;
    let nlen = ns.len();
    while k < nlen
        invariant
            k <= nlen,
            nlen == ns@.len(),
            nsv == views_u8(ns@),
            nsv.len() == nlen,
            out@.len() == k,
            forall|q: int| 0 <= q < k ==> valid_utf8(nsv[q]) && out@[q]@ == decode_utf8(nsv[q]),
        decreases nlen - k,
    {
        let name = copy_bytes(&ns[k]);
        proof {
            assert(name@ == nsv[k as int]);
        }
        match bytes_to_string(name) {
            Some(st) => {
                out.push(st);
            },
            None => {
                proof {
                    assert(!valid_utf8(nsv[k as int]));
                    assert(!all_utf8(nsv));
                }
                return None;
            },
        }
        k = k + 1;
    }
    Some(out)
}

/// A plain copy of a byte vector.
fn copy_bytes(v: &Vec<u8>) -> (r: Vec<u8>)
    ensures
        r@ == v@,
{
    let mut r: Vec<u8> = Vec::new();
    let mut k: usize = 0;
    while k < v.len()
        invariant
            k <= v@.len(),
            r@ == v@.take(k as int),
        decreases v@.len() - k,
    {
        r.push(v[k]);
        proof {
            assert(r@ =~= v@.take(k + 1));
        }
        k = k + 1;
    }
    proof {
        assert(v@.take(v@.len() as int) =~= v@);
    }
    r
}

/// Whether a run needs the package index at all: only when maintainers
/// were named.
pub fn wants_package_index(maintainers: &Vec<String>) -> (r: bool)
    ensures
        r == (maintainers@.len() > 0),
{
    maintainers.len() > 0
}

/// Resolve maintainers against the compressed package index: with no
/// maintainers named, the empty list, the document untouched; otherwise
/// the document is decompressed and read as `packages_of_maintainers`
/// does.
pub fn fetch_packages_of_maintainers(compressed: &Vec<u8>, maintainers: &Vec<String>) -> (r:
    Result<Vec<String>, ResolveError>)
    ensures
        maintainers@.len() == 0 ==> (r matches Ok(out) && out@.len() == 0),
        maintainers@.len() > 0 ==> match r {
            Ok(out) => brotli_decoded(compressed@) matches Some(doc) && sp_index(
                doc,
                maint_bytes(maintainers@),
            ) matches Some(ns) && names_decoded(out@, ns),
            Err(e) => {
                ||| (e == ResolveError::BadCompression && brotli_decoded(compressed@) is None)
                ||| (e == ResolveError::BadIndex && (brotli_decoded(compressed@) matches Some(
                    doc,
                ) && !index_readable(doc, maint_bytes(maintainers@))))
            },
        },
{
    if maintainers.len() == 0 {
        return Ok(Vec::new());
    }
    match brotli_decompress(compressed) {
        Err(()) => Err(ResolveError::BadCompression),
        Ok(doc) => packages_of_maintainers(&doc, maintainers),
    }
}

} // verus!
