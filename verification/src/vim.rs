//! Editor-side operations: each builds the exact frame to send on the
//! editor connection (identity `None`), and a status checker reads the
//! editor's reply. The embedding writes the frames and feeds replies back.

use vstd::prelude::*;
use crate::codec::dec_of;
use crate::codec::push_dec;
use crate::codec::push_bytes;
use crate::codec::all_digits;
use crate::codec::dec_val;
use crate::codec::trim;
use crate::codec::trim_of;
use crate::codec::find_byte;
use crate::codec::find_byte_at;
use crate::codec::lemma_find_byte;
use crate::codec::parse_dec;
use crate::message::escape_of;
use crate::message::push_json_escaped;
use crate::message::call_wire;
use crate::message::notif_wire;
use crate::worker::LanguageClientWorker;
use crate::worker::LCError;
use crate::worker::call_transition;
use crate::worker::registered;
use crate::worker::same_identity;
use crate::worker::ids_available;
use crate::json::string_value_of;
use crate::json::get_string_value;

verus! {

/// A JSON string literal holding `s`.
pub open spec fn json_string_of(s: Seq<u8>) -> Seq<u8> {
    seq![34u8] + escape_of(s) + seq![34u8]
}

/// Build a JSON string literal holding `s`.
pub fn json_string_bytes(s: &[u8]) -> (r: Vec<u8>)
    ensures
        r@ == json_string_of(s@),
{
    let mut out: Vec<u8> = Vec::new();
    out.push(34);
    push_json_escaped(&mut out, s);
    out.push(34);
    proof {
        assert(out@ =~= json_string_of(s@));
    }
    out
}

/// `s` with each line break replaced by one space, left to right.
pub open spec fn jl(s: Seq<u8>) -> Seq<u8>
    decreases s.len(),
{
    if s.len() == 0 {
        Seq::empty()
    } else if s[0] == 13 && s.len() >= 2 && s[1] == 10 {
        seq![32u8] + jl(s.skip(2))
    } else if s[0] == 10 {
        seq![32u8] + jl(s.skip(1))
    } else {
        seq![s[0]] + jl(s.skip(1))
    }
}

/// `s` without one trailing line terminator, if any.
pub open spec fn strip_last_newline(s: Seq<u8>) -> Seq<u8> {
    if s.len() >= 2 && s[s.len() - 2] == 13 && s[s.len() - 1] == 10 {
        s.take(s.len() - 2)
    } else if s.len() >= 1 && s[s.len() - 1] == 10 {
        s.take(s.len() - 1)
    } else {
        s
    }
}

/// The lines of `s` joined by single spaces, as the ellipsis echoes show it.
pub open spec fn joined_lines_of(s: Seq<u8>) -> Seq<u8> {
    jl(strip_last_newline(s))
}

/// Join the lines of `s` with single spaces.
pub fn join_lines(s: &[u8]) -> (r: Vec<u8>)
    ensures
        r@ == joined_lines_of(s@),
{
    let mut end: usize = s.len();
    if s.len() >= 2 && s[s.len() - 2] == 13 && s[s.len() - 1] == 10 {
        end = s.len() - 2;
    } else if s.len() >= 1 && s[s.len() - 1] == 10 {
        end = s.len() - 1;
    }
    let ghost t = strip_last_newline(s@);
    proof {
        assert(t =~= s@.take(end as int));
    }
    let mut out: Vec<u8> = Vec::new();
    let mut i: usize = 0;
    proof {
        assert(t.skip(0) =~= t);
        assert(out@ + jl(t) =~= jl(t));
    }
    while i < end
        invariant
            0 <= i <= end <= s@.len(),
            t == s@.take(end as int),
            t == strip_last_newline(s@),
            out@ + jl(t.skip(i as int)) == jl(t),
        decreases end - i,
    {
        proof {
            assert(t.skip(i as int).len() == end - i);
            assert(t.skip(i as int)[0] == s@[i as int]);
        }
        if s[i] == 13 && i + 1 < end && s[i + 1] == 10 {
            proof {
                assert(t.skip(i as int)[1] == s@[i as int + 1]);
                assert(t.skip(i as int).skip(2) =~= t.skip(i as int + 2));
            }
            out.push(32);
            i = i + 2;
        } else if s[i] == 10 {
            proof {
                if t.skip(i as int).len() >= 2 {
                    assert(t.skip(i as int)[1] == s@[i as int + 1]);
                }
                assert(t.skip(i as int).skip(1) =~= t.skip(i as int + 1));
            }
            out.push(32);
            i = i + 1;
        } else {
            proof {
                if t.skip(i as int).len() >= 2 {
                    assert(t.skip(i as int)[1] == s@[i as int + 1]);
                }
                assert(t.skip(i as int).skip(1) =~= t.skip(i as int + 1));
            }
            out.push(s[i]);
            i = i + 1;
        }
    }
    proof {
        assert(t.skip(i as int) =~= Seq::<u8>::empty());
        assert(out@ =~= jl(t));
    }
    out
}

/// The JSON array of the string items, without the brackets.
pub open spec fn jsa_items(ts: Seq<Vec<u8>>) -> Seq<u8>
    decreases ts.len(),
{
    if ts.len() == 0 {
        Seq::empty()
    } else if ts.len() == 1 {
        json_string_of(ts[0]@)
    } else {
        jsa_items(ts.drop_last()) + seq![44u8] + json_string_of(ts.last()@)
    }
}

/// A JSON array of strings.
pub open spec fn json_string_array_of(ts: Seq<Vec<u8>>) -> Seq<u8> {
    seq![91u8] + jsa_items(ts) + seq![93u8]
}

fn push_string_array(out: &mut Vec<u8>, ts: &Vec<Vec<u8>>)
    ensures
        final(out)@ == old(out)@ + json_string_array_of(ts@),
{
    out.push(91);
    let mut i: usize = 0;
    while i < ts.len()
        invariant
            0 <= i <= ts@.len(),
            out@ == old(out)@ + seq![91u8] + jsa_items(ts@.take(i as int)),
        decreases ts@.len() - i,
    {
        if i > 0 {
            out.push(44);
        }
        let item = json_string_bytes(ts[i].as_slice());
        push_bytes(out, item.as_slice());
        proof {
            assert(ts@.take(i as int + 1).drop_last() =~= ts@.take(i as int));
            assert(ts@.take(i as int + 1).last() == ts@[i as int]);
            if i == 0 {
                assert(jsa_items(ts@.take(1)) == json_string_of(ts@[0]@));
            }
            assert(out@ =~= old(out)@ + seq![91u8] + jsa_items(ts@.take(i as int + 1)));
        }
        i = i + 1;
    }
    out.push(93);
    proof {
        assert(ts@.take(i as int) =~= ts@);
        assert(out@ =~= old(out)@ + json_string_array_of(ts@));
    }
}

/// The `cursor` params `[lnum,col]`.
pub open spec fn cursor_params(lnum: u64, col: u64) -> Seq<u8> {
    seq![91u8] + dec_of(lnum as nat) + seq![44u8] + dec_of(col as nat) + seq![93u8]
}

/// The `setline` params `[lnum,[lines...]]`.
pub open spec fn setline_params(lnum: u64, ts: Seq<Vec<u8>>) -> Seq<u8> {
    seq![91u8] + dec_of(lnum as nat) + seq![44u8] + json_string_array_of(ts) + seq![93u8]
}

/// One quickfix or location-list entry, as plain values.
#[derive(Clone, Debug, PartialEq, Eq)]
pub struct QuickfixEntry {
    pub filename: Vec<u8>,
    pub lnum: u64,
    pub col: u64,
    pub text: Vec<u8>,
}

/// Bytes of `{"filename":`.
pub open spec fn ch_qf_open() -> Seq<u8> {
    seq![123u8, 34u8, 102u8, 105u8, 108u8, 101u8, 110u8, 97u8, 109u8, 101u8, 34u8, 58u8]
}

/// Bytes of `,"lnum":`.
pub open spec fn ch_qf_lnum() -> Seq<u8> {
    seq![44u8, 34u8, 108u8, 110u8, 117u8, 109u8, 34u8, 58u8]
}

/// Bytes of `,"col":`.
pub open spec fn ch_qf_col() -> Seq<u8> {
    seq![44u8, 34u8, 99u8, 111u8, 108u8, 34u8, 58u8]
}

/// Bytes of `,"text":`.
pub open spec fn ch_qf_text() -> Seq<u8> {
    seq![44u8, 34u8, 116u8, 101u8, 120u8, 116u8, 34u8, 58u8]
}

/// Bytes of `[[],"a",{"title":`.
pub open spec fn ch_qf_title_open() -> Seq<u8> {
    seq![91u8, 91u8, 93u8, 44u8, 34u8, 97u8, 34u8, 44u8, 123u8, 34u8, 116u8, 105u8, 116u8, 108u8, 101u8, 34u8, 58u8]
}

/// Bytes of `[0,[],"a",{"title":`.
pub open spec fn ch_ll_title_open() -> Seq<u8> {
    seq![91u8, 48u8, 44u8, 91u8, 93u8, 44u8, 34u8, 97u8, 34u8, 44u8, 123u8, 34u8, 116u8, 105u8, 116u8, 108u8, 101u8, 34u8, 58u8]
}

/// Bytes of `}]`.
pub open spec fn ch_title_close() -> Seq<u8> {
    seq![125u8, 93u8]
}

/// Bytes of `{"languageId":"java","uri":`.
pub open spec fn ch_cf_open() -> Seq<u8> {
    seq![123u8, 34u8, 108u8, 97u8, 110u8, 103u8, 117u8, 97u8, 103u8, 101u8, 73u8, 100u8, 34u8, 58u8, 34u8, 106u8, 97u8, 118u8, 97u8, 34u8, 44u8, 34u8, 117u8, 114u8, 105u8, 34u8, 58u8]
}

fn push_qf_open(out: &mut Vec<u8>)
    ensures
        final(out)@ == old(out)@ + ch_qf_open(),
{
    out.push(123);
    out.push(34);
    out.push(102);
    out.push(105);
    out.push(108);
    out.push(101);
    out.push(110);
    out.push(97);
    out.push(109);
    out.push(101);
    out.push(34);
    out.push(58);
    assert(out@ =~= old(out)@ + ch_qf_open());
}

fn push_qf_lnum(out: &mut Vec<u8>)
    ensures
        final(out)@ == old(out)@ + ch_qf_lnum(),
{
    out.push(44);
    out.push(34);
    out.push(108);
    out.push(110);
    out.push(117);
    out.push(109);
    out.push(34);
    out.push(58);
    assert(out@ =~= old(out)@ + ch_qf_lnum());
}

fn push_qf_col(out: &mut Vec<u8>)
    ensures
        final(out)@ == old(out)@ + ch_qf_col(),
{
    out.push(44);
    out.push(34);
    out.push(99);
    out.push(111);
    out.push(108);
    out.push(34);
    out.push(58);
    assert(out@ =~= old(out)@ + ch_qf_col());
}

fn push_qf_text(out: &mut Vec<u8>)
    ensures
        final(out)@ == old(out)@ + ch_qf_text(),
{
    out.push(44);
    out.push(34);
    out.push(116);
    out.push(101);
    out.push(120);
    out.push(116);
    out.push(34);
    out.push(58);
    assert(out@ =~= old(out)@ + ch_qf_text());
}

fn push_qf_title_open(out: &mut Vec<u8>)
    ensures
        final(out)@ == old(out)@ + ch_qf_title_open(),
{
    out.push(91);
    out.push(91);
    out.push(93);
    out.push(44);
    out.push(34);
    out.push(97);
    out.push(34);
    out.push(44);
    out.push(123);
    out.push(34);
    out.push(116);
    out.push(105);
    out.push(116);
    out.push(108);
    out.push(101);
    out.push(34);
    out.push(58);
    assert(out@ =~= old(out)@ + ch_qf_title_open());
}

fn push_ll_title_open(out: &mut Vec<u8>)
    ensures
        final(out)@ == old(out)@ + ch_ll_title_open(),
{
    out.push(91);
    out.push(48);
    out.push(44);
    out.push(91);
    out.push(93);
    out.push(44);
    out.push(34);
    out.push(97);
    out.push(34);
    out.push(44);
    out.push(123);
    out.push(34);
    out.push(116);
    out.push(105);
    out.push(116);
    out.push(108);
    out.push(101);
    out.push(34);
    out.push(58);
    assert(out@ =~= old(out)@ + ch_ll_title_open());
}

fn push_title_close(out: &mut Vec<u8>)
    ensures
        final(out)@ == old(out)@ + ch_title_close(),
{
    out.push(125);
    out.push(93);
    assert(out@ =~= old(out)@ + ch_title_close());
}

fn push_cf_open(out: &mut Vec<u8>)
    ensures
        final(out)@ == old(out)@ + ch_cf_open(),
{
    out.push(123);
    out.push(34);
    out.push(108);
    out.push(97);
    out.push(110);
    out.push(103);
    out.push(117);
    out.push(97);
    out.push(103);
    out.push(101);
    out.push(73);
    out.push(100);
    out.push(34);
    out.push(58);
    out.push(34);
    out.push(106);
    out.push(97);
    out.push(118);
    out.push(97);
    out.push(34);
    out.push(44);
    out.push(34);
    out.push(117);
    out.push(114);
    out.push(105);
    out.push(34);
    out.push(58);
    assert(out@ =~= old(out)@ + ch_cf_open());
}

/// The JSON object of one quickfix entry.
pub open spec fn qf_entry_json(e: QuickfixEntry) -> Seq<u8> {
    ch_qf_open() + json_string_of(e.filename@) + ch_qf_lnum() + dec_of(e.lnum as nat)
        + ch_qf_col() + dec_of(e.col as nat) + ch_qf_text() + json_string_of(e.text@)
        + seq![125u8]
}

fn push_qf_entry(out: &mut Vec<u8>, e: &QuickfixEntry)
    ensures
        final(out)@ == old(out)@ + qf_entry_json(*e),
{
    push_qf_open(out);
    let f = json_string_bytes(e.filename.as_slice());
    push_bytes(out, f.as_slice());
    push_qf_lnum(out);
    push_dec(out, e.lnum);
    push_qf_col(out);
    push_dec(out, e.col);
    push_qf_text(out);
    let t = json_string_bytes(e.text.as_slice());
    push_bytes(out, t.as_slice());
    out.push(125);
    proof {
        assert(out@ =~= old(out)@ + qf_entry_json(*e));
    }
}

/// The JSON array items of a quickfix list, without the brackets.
pub open spec fn qf_items(es: Seq<QuickfixEntry>) -> Seq<u8>
    decreases es.len(),
{
    if es.len() == 0 {
        Seq::empty()
    } else if es.len() == 1 {
        qf_entry_json(es[0])
    } else {
        qf_items(es.drop_last()) + seq![44u8] + qf_entry_json(es.last())
    }
}

fn push_qf_list(out: &mut Vec<u8>, es: &Vec<QuickfixEntry>)
    ensures
        final(out)@ == old(out)@ + seq![91u8] + qf_items(es@) + seq![93u8],
{
    out.push(91);
    let mut i: usize = 0;
    while i < es.len()
        invariant
            0 <= i <= es@.len(),
            out@ == old(out)@ + seq![91u8] + qf_items(es@.take(i as int)),
        decreases es@.len() - i,
    {
        if i > 0 {
            out.push(44);
        }
        push_qf_entry(out, &es[i]);
        proof {
            assert(es@.take(i as int + 1).drop_last() =~= es@.take(i as int));
            assert(es@.take(i as int + 1).last() == es@[i as int]);
            if i == 0 {
                assert(qf_items(es@.take(1)) == qf_entry_json(es@[0]));
            }
            assert(out@ =~= old(out)@ + seq![91u8] + qf_items(es@.take(i as int + 1)));
        }
        i = i + 1;
    }
    out.push(93);
    proof {
        assert(es@.take(i as int) =~= es@);
        assert(out@ =~= old(out)@ + seq![91u8] + qf_items(es@) + seq![93u8]);
    }
}

/// The `setqflist` params `[list,action]`.
pub open spec fn setqflist_params(es: Seq<QuickfixEntry>, action: Seq<u8>) -> Seq<u8> {
    seq![91u8] + seq![91u8] + qf_items(es) + seq![93u8] + seq![44u8] + json_string_of(action)
        + seq![93u8]
}

/// The `setqflist` title params `[[],"a",{"title":<title>}]`.
pub open spec fn setqflist_title_params(title: Seq<u8>) -> Seq<u8> {
    ch_qf_title_open() + json_string_of(title) + ch_title_close()
}

/// The `setloclist` params `[0,list,action]`.
pub open spec fn setloclist_params(es: Seq<QuickfixEntry>, action: Seq<u8>) -> Seq<u8> {
    seq![91u8, 48u8, 44u8] + seq![91u8] + qf_items(es) + seq![93u8] + seq![44u8]
        + json_string_of(action) + seq![93u8]
}

/// The `setloclist` title params `[0,[],"a",{"title":<title>}]`.
pub open spec fn setloclist_title_params(title: Seq<u8>) -> Seq<u8> {
    ch_ll_title_open() + json_string_of(title) + ch_title_close()
}

/// The `s:Edit` params `[goto,path]`.
pub open spec fn edit_params(goto: Seq<u8>, path: Seq<u8>) -> Seq<u8> {
    seq![91u8] + json_string_of(goto) + seq![44u8] + json_string_of(path) + seq![93u8]
}

/// The `java/classFileContents` params `{"languageId":"java","uri":<path>}`.
pub open spec fn class_file_params(path: Seq<u8>) -> Seq<u8> {
    ch_cf_open() + json_string_of(path) + seq![125u8]
}

/// Does the path name a class file served by the Java backend?
pub open spec fn spec_is_class_path(s: Seq<u8>) -> bool {
    s.len() >= 6 && s[0] == 106 && s[1] == 100 && s[2] == 116 && s[3] == 58 && s[4] == 47
        && s[5] == 47
}

/// Does the path use the `jdt://` scheme, whose contents the Java backend
/// must be asked for after the edit?
pub fn is_class_path(s: &[u8]) -> (r: bool)
    ensures
        r == spec_is_class_path(s@),
{
    s.len() >= 6 && s[0] == 106 && s[1] == 100 && s[2] == 116 && s[3] == 58 && s[4] == 47
        && s[5] == 47
}

/// `s` without one trailing carriage return.
pub open spec fn strip_cr(s: Seq<u8>) -> Seq<u8> {
    if s.len() >= 1 && s.last() == 13 {
        s.drop_last()
    } else {
        s
    }
}

/// The lines of `s`: split at each line feed, dropping one carriage return
/// before it; no trailing empty line for a trailing terminator.
pub open spec fn split_lines_of(s: Seq<u8>) -> Seq<Seq<u8>>
    decreases s.len(),
{
    if s.len() == 0 {
        Seq::empty()
    } else {
        match find_byte(s, 10) {
            None => seq![s],
            Some(i) => if 0 <= i && i + 1 <= s.len() {
                seq![strip_cr(s.take(i))] + split_lines_of(s.skip(i + 1))
            } else {
                seq![s]
            },
        }
    }
}

/// Split a class-file body into the lines handed to `setline`.
pub fn content_lines(s: &[u8]) -> (r: Vec<Vec<u8>>)
    ensures
        r@.map_values(|v: Vec<u8>| v@) == split_lines_of(s@),
{
    let mut out: Vec<Vec<u8>> = Vec::new();
    let mut pos: usize = 0;
    proof {
        assert(s@.skip(0) =~= s@);
        assert(out@.map_values(|v: Vec<u8>| v@) + split_lines_of(s@.skip(0)) =~= split_lines_of(
            s@,
        ));
    }
    while pos < s.len()
        invariant
            0 <= pos <= s@.len(),
            out@.map_values(|v: Vec<u8>| v@) + split_lines_of(s@.skip(pos as int))
                =~= split_lines_of(s@),
        decreases s@.len() - pos,
    {
        let ghost rem = s@.skip(pos as int);
        let rest = vstd::slice::slice_subrange(s, pos, s.len());
        proof {
            assert(rest@ =~= rem);
        }
        match find_byte_at(rest, 10) {
            None => {
                proof {
                    assert(rem.len() > 0);
                    assert(split_lines_of(rem) == seq![rem]);
                }
                let seg = vstd::slice::slice_to_vec(rest);
                let ghost m0 = out@.map_values(|v: Vec<u8>| v@);
                out.push(seg);
                pos = s.len();
                proof {
                    assert(out@.map_values(|v: Vec<u8>| v@) =~= m0.push(rem));
                    assert(s@.skip(pos as int) =~= Seq::<u8>::empty());
                    assert(m0.push(rem) + split_lines_of(s@.skip(pos as int)) =~= m0
                        + split_lines_of(rem));
                }
            },
            Some(j) => {
                proof {
                    lemma_find_byte(rem, 10);
                }
                let mut seg_end: usize = j;
                if j > 0 && rest[j - 1] == 13 {
                    seg_end = j - 1;
                }
                let seg_slice = vstd::slice::slice_subrange(rest, 0, seg_end);
                let seg = vstd::slice::slice_to_vec(seg_slice);
                proof {
                    assert(seg@ =~= strip_cr(rem.take(j as int)));
                }
                let ghost m0 = out@.map_values(|v: Vec<u8>| v@);
                out.push(seg);
                pos = pos + j + 1;
                proof {
                    assert(out@.map_values(|v: Vec<u8>| v@) =~= m0.push(
                        strip_cr(rem.take(j as int)),
                    ));
                    assert(rem.skip(j as int + 1) =~= s@.skip(pos as int));
                    assert(split_lines_of(rem) == seq![strip_cr(rem.take(j as int))]
                        + split_lines_of(rem.skip(j as int + 1)));
                    assert(m0.push(strip_cr(rem.take(j as int))) + split_lines_of(
                        s@.skip(pos as int),
                    ) =~= m0 + split_lines_of(rem));
                }
            },
        }
    }
    proof {
        assert(s@.skip(pos as int) =~= Seq::<u8>::empty());
        assert(out@.map_values(|v: Vec<u8>| v@) =~= split_lines_of(s@));
    }
    out
}


/// The lines of a class-file reply: the reply's result must be one JSON
/// string, whose text is split for `setline`.
pub fn class_file_lines(result: &[u8]) -> (r: Option<Vec<Vec<u8>>>)
    ensures
        match string_value_of(result@) {
            Some(c) => r is Some && r->Some_0@.map_values(|v: Vec<u8>| v@) == split_lines_of(c),
            None => r is None,
        },
{
    match get_string_value(result) {
        Some(content) => Some(content_lines(content.as_slice())),
        None => None,
    }
}

/// The status number an editor reply carries, if it is one.
pub open spec fn spec_status(s: Seq<u8>) -> Option<nat> {
    let t = trim_of(s);
    if t.len() > 0 && all_digits(t) && dec_val(t) <= u64::MAX {
        Some(dec_val(t))
    } else {
        None
    }
}

/// Read an editor status reply: zero is success, any other number is the
/// given failure, anything else cannot be read.
pub fn status_result(result: &[u8], failure: LCError) -> (r: Result<(), LCError>)
    ensures
        match spec_status(result@) {
            Some(n) => if n == 0 {
                r == Ok::<(), LCError>(())
            } else {
                r == Err::<(), LCError>(failure)
            },
            None => r == Err::<(), LCError>(LCError::InvalidResponse),
        },
{
    let t = trim(result);
    match parse_dec(t.as_slice()) {
        Some(0) => Ok(()),
        Some(_) => Err(failure),
        None => Err(LCError::InvalidResponse),
    }
}

/// The goto command an edit uses: the caller's, or `edit`.
pub open spec fn goto_of(g: Option<Vec<u8>>) -> Seq<u8> {
    match g {
        Some(v) => v@,
        None => seq![101u8, 100u8, 105u8, 116u8],
    }
}

fn setline_params_bytes(lnum: u64, text: &Vec<Vec<u8>>) -> (r: Vec<u8>)
    ensures
        r@ == setline_params(lnum, text@),
{
    let mut out: Vec<u8> = Vec::new();
    out.push(91);
    push_dec(&mut out, lnum);
    out.push(44);
    push_string_array(&mut out, text);
    out.push(93);
    proof {
        assert(out@ =~= setline_params(lnum, text@));
    }
    out
}

fn edit_params_bytes(goto_cmd: &Option<Vec<u8>>, path: &[u8]) -> (r: Vec<u8>)
    ensures
        r@ == edit_params(goto_of(*goto_cmd), path@),
{
    let mut out: Vec<u8> = Vec::new();
    out.push(91);
    match goto_cmd {
        Some(v) => {
            let g = json_string_bytes(v.as_slice());
            push_bytes(&mut out, g.as_slice());
        },
        None => {
            let mut d: Vec<u8> = Vec::new();
            d.push(101);
            d.push(100);
            d.push(105);
            d.push(116);
            proof {
                assert(d@ =~= goto_of(None::<Vec<u8>>));
            }
            let g = json_string_bytes(d.as_slice());
            push_bytes(&mut out, g.as_slice());
        },
    }
    out.push(44);
    let p = json_string_bytes(path);
    push_bytes(&mut out, p.as_slice());
    out.push(93);
    proof {
        assert(out@ =~= edit_params(goto_of(*goto_cmd), path@));
    }
    out
}

fn class_file_params_bytes(path: &[u8]) -> (r: Vec<u8>)
    ensures
        r@ == class_file_params(path@),
{
    let mut out: Vec<u8> = Vec::new();
    push_cf_open(&mut out);
    let p = json_string_bytes(path);
    push_bytes(&mut out, p.as_slice());
    out.push(125);
    proof {
        assert(out@ =~= class_file_params(path@));
    }
    out
}

fn setqflist_params_bytes(list: &Vec<QuickfixEntry>, action: &[u8]) -> (r: Vec<u8>)
    ensures
        r@ == setqflist_params(list@, action@),
{
    let mut out: Vec<u8> = Vec::new();
    out.push(91);
    push_qf_list(&mut out, list);
    out.push(44);
    let a = json_string_bytes(action);
    push_bytes(&mut out, a.as_slice());
    out.push(93);
    proof {
        assert(out@ =~= setqflist_params(list@, action@));
    }
    out
}

fn setqflist_title_params_bytes(title: &[u8]) -> (r: Vec<u8>)
    ensures
        r@ == setqflist_title_params(title@),
{
    let mut out: Vec<u8> = Vec::new();
    push_qf_title_open(&mut out);
    let t = json_string_bytes(title);
    push_bytes(&mut out, t.as_slice());
    push_title_close(&mut out);
    proof {
        assert(out@ =~= setqflist_title_params(title@));
    }
    out
}

fn setloclist_params_bytes(list: &Vec<QuickfixEntry>, action: &[u8]) -> (r: Vec<u8>)
    ensures
        r@ == setloclist_params(list@, action@),
{
    let mut out: Vec<u8> = Vec::new();
    out.push(91);
    out.push(48);
    out.push(44);
    push_qf_list(&mut out, list);
    out.push(44);
    let a = json_string_bytes(action);
    push_bytes(&mut out, a.as_slice());
    out.push(93);
    proof {
        assert(out@ =~= setloclist_params(list@, action@));
    }
    out
}

fn setloclist_title_params_bytes(title: &[u8]) -> (r: Vec<u8>)
    ensures
        r@ == setloclist_title_params(title@),
{
    let mut out: Vec<u8> = Vec::new();
    push_ll_title_open(&mut out);
    let t = json_string_bytes(title);
    push_bytes(&mut out, t.as_slice());
    push_title_close(&mut out);
    proof {
        assert(out@ =~= setloclist_title_params(title@));
    }
    out
}

impl LanguageClientWorker {
    /// Echo a message in the editor's command line.
    /// Fire-and-forget toward the editor connection.
    pub fn echo(&self, message: &[u8]) -> (r: Result<(usize, Vec<u8>), LCError>)
        ensures
            match r {
                Ok((i, bytes)) => registered(self.0.addrs@, None::<String>) && 0 <= i
                    < self.0.addrs@.len() && same_identity(
                    self.0.addrs@[i as int].0,
                    None::<String>,
                ) && bytes@ == notif_wire("s:Echo"@, Some(json_string_of(message@))),
                Err(e) => e == LCError::UnknownBackend && !registered(
                    self.0.addrs@,
                    None::<String>,
                ),
            },
    {
        let params = json_string_bytes(message);
        match self.notify(&None, "s:Echo".to_owned(), Some(params)) {
            Ok((i, bytes)) => {
                proof {
                    assert(bytes@ == notif_wire("s:Echo"@, Some(json_string_of(message@))));
                }
                Ok((i, bytes))
            },
            Err(e) => Err(e),
        }
    }

    /// Echo a message that persists in the editor's history.
    /// Fire-and-forget toward the editor connection.
    pub fn echomsg(&self, message: &[u8]) -> (r: Result<(usize, Vec<u8>), LCError>)
        ensures
            match r {
                Ok((i, bytes)) => registered(self.0.addrs@, None::<String>) && 0 <= i
                    < self.0.addrs@.len() && same_identity(
                    self.0.addrs@[i as int].0,
                    None::<String>,
                ) && bytes@ == notif_wire("s:Echomsg"@, Some(json_string_of(message@))),
                Err(e) => e == LCError::UnknownBackend && !registered(
                    self.0.addrs@,
                    None::<String>,
                ),
            },
    {
        let params = json_string_bytes(message);
        match self.notify(&None, "s:Echomsg".to_owned(), Some(params)) {
            Ok((i, bytes)) => {
                proof {
                    assert(bytes@ == notif_wire("s:Echomsg"@, Some(json_string_of(message@))));
                }
                Ok((i, bytes))
            },
            Err(e) => Err(e),
        }
    }

    /// Echo an error message.
    /// Fire-and-forget toward the editor connection.
    pub fn echoerr(&self, message: &[u8]) -> (r: Result<(usize, Vec<u8>), LCError>)
        ensures
            match r {
                Ok((i, bytes)) => registered(self.0.addrs@, None::<String>) && 0 <= i
                    < self.0.addrs@.len() && same_identity(
                    self.0.addrs@[i as int].0,
                    None::<String>,
                ) && bytes@ == notif_wire("s:Echoerr"@, Some(json_string_of(message@))),
                Err(e) => e == LCError::UnknownBackend && !registered(
                    self.0.addrs@,
                    None::<String>,
                ),
            },
    {
        let params = json_string_bytes(message);
        match self.notify(&None, "s:Echoerr".to_owned(), Some(params)) {
            Ok((i, bytes)) => {
                proof {
                    assert(bytes@ == notif_wire("s:Echoerr"@, Some(json_string_of(message@))));
                }
                Ok((i, bytes))
            },
            Err(e) => Err(e),
        }
    }

    /// Echo a warning message.
    /// Fire-and-forget toward the editor connection.
    pub fn echowarn(&self, message: &[u8]) -> (r: Result<(usize, Vec<u8>), LCError>)
        ensures
            match r {
                Ok((i, bytes)) => registered(self.0.addrs@, None::<String>) && 0 <= i
                    < self.0.addrs@.len() && same_identity(
                    self.0.addrs@[i as int].0,
                    None::<String>,
                ) && bytes@ == notif_wire("s:Echowarn"@, Some(json_string_of(message@))),
                Err(e) => e == LCError::UnknownBackend && !registered(
                    self.0.addrs@,
                    None::<String>,
                ),
            },
    {
        let params = json_string_bytes(message);
        match self.notify(&None, "s:Echowarn".to_owned(), Some(params)) {
            Ok((i, bytes)) => {
                proof {
                    assert(bytes@ == notif_wire("s:Echowarn"@, Some(json_string_of(message@))));
                }
                Ok((i, bytes))
            },
            Err(e) => Err(e),
        }
    }

    /// Echo a possibly multi-line message on one line, elided to fit.
    /// Fire-and-forget toward the editor connection.
    pub fn echo_ellipsis(&self, message: &[u8]) -> (r: Result<(usize, Vec<u8>), LCError>)
        ensures
            match r {
                Ok((i, bytes)) => registered(self.0.addrs@, None::<String>) && 0 <= i
                    < self.0.addrs@.len() && same_identity(
                    self.0.addrs@[i as int].0,
                    None::<String>,
                ) && bytes@ == notif_wire("s:EchoEllipsis"@, Some(json_string_of(joined_lines_of(message@)))),
                Err(e) => e == LCError::UnknownBackend && !registered(
                    self.0.addrs@,
                    None::<String>,
                ),
            },
    {
        let params = json_string_bytes(join_lines(message).as_slice());
        match self.notify(&None, "s:EchoEllipsis".to_owned(), Some(params)) {
            Ok((i, bytes)) => {
                proof {
                    assert(bytes@ == notif_wire("s:EchoEllipsis"@, Some(json_string_of(joined_lines_of(message@)))));
                }
                Ok((i, bytes))
            },
            Err(e) => Err(e),
        }
    }

    /// Echo a possibly multi-line message on one line, kept in history.
    /// Fire-and-forget toward the editor connection.
    pub fn echomsg_ellipsis(&self, message: &[u8]) -> (r: Result<(usize, Vec<u8>), LCError>)
        ensures
            match r {
                Ok((i, bytes)) => registered(self.0.addrs@, None::<String>) && 0 <= i
                    < self.0.addrs@.len() && same_identity(
                    self.0.addrs@[i as int].0,
                    None::<String>,
                ) && bytes@ == notif_wire("s:EchomsgEllipsis"@, Some(json_string_of(joined_lines_of(message@)))),
                Err(e) => e == LCError::UnknownBackend && !registered(
                    self.0.addrs@,
                    None::<String>,
                ),
            },
    {
        let params = json_string_bytes(join_lines(message).as_slice());
        match self.notify(&None, "s:EchomsgEllipsis".to_owned(), Some(params)) {
            Ok((i, bytes)) => {
                proof {
                    assert(bytes@ == notif_wire("s:EchomsgEllipsis"@, Some(json_string_of(joined_lines_of(message@)))));
                }
                Ok((i, bytes))
            },
            Err(e) => Err(e),
        }
    }

    /// Evaluate an expression in the editor; the reply carries its value.
    /// A blocking editor call: the embedding writes the frame and waits on
    /// the slot for the editor's reply.
    pub fn eval(&mut self, exp: &[u8], slot: u64) -> (r: Result<(usize, u64, Vec<u8>), LCError>)
        requires
            old(self).wf(),
            ids_available(*old(self)),
        ensures
            final(self).wf(),
            match r {
                Ok((i, id, bytes)) => call_transition(
                    *old(self),
                    *final(self),
                    None::<String>,
                    i as int,
                    id,
                    slot,
                ) && bytes@ == call_wire(id, "eval"@, Some(json_string_of(exp@))),
                Err(e) => e == LCError::UnknownBackend && !registered(
                    old(self).0.addrs@,
                    None::<String>,
                ) && final(self).0.addrs@ == old(self).0.addrs@ && final(self).0.docs@ == old(
                    self,
                ).0.docs@,
            },
    {
        let params = json_string_bytes(exp);
        match self.call(&None, "eval".to_owned(), Some(params), slot) {
            Ok((i, id, bytes)) => {
                proof {
                    assert(bytes@ == call_wire(id, "eval"@, Some(json_string_of(exp@))));
                }
                Ok((i, id, bytes))
            },
            Err(e) => Err(e),
        }
    }

    /// Run an editor command; the reply is a status checked by `status_result`.
    /// A blocking editor call: the embedding writes the frame and waits on
    /// the slot for the editor's reply.
    pub fn command(&mut self, cmds: &[u8], slot: u64) -> (r: Result<(usize, u64, Vec<u8>), LCError>)
        requires
            old(self).wf(),
            ids_available(*old(self)),
        ensures
            final(self).wf(),
            match r {
                Ok((i, id, bytes)) => call_transition(
                    *old(self),
                    *final(self),
                    None::<String>,
                    i as int,
                    id,
                    slot,
                ) && bytes@ == call_wire(id, "execute"@, Some(json_string_of(cmds@))),
                Err(e) => e == LCError::UnknownBackend && !registered(
                    old(self).0.addrs@,
                    None::<String>,
                ) && final(self).0.addrs@ == old(self).0.addrs@ && final(self).0.docs@ == old(
                    self,
                ).0.docs@,
            },
    {
        let params = json_string_bytes(cmds);
        match self.call(&None, "execute".to_owned(), Some(params), slot) {
            Ok((i, id, bytes)) => {
                proof {
                    assert(bytes@ == call_wire(id, "execute"@, Some(json_string_of(cmds@))));
                }
                Ok((i, id, bytes))
            },
            Err(e) => Err(e),
        }
    }

    /// Replace buffer lines from `lnum` on; the reply is a status.
    /// A blocking editor call: the embedding writes the frame and waits on
    /// the slot for the editor's reply.
    pub fn setline(&mut self, lnum: u64, text: &Vec<Vec<u8>>, slot: u64) -> (r: Result<(usize, u64, Vec<u8>), LCError>)
        requires
            old(self).wf(),
            ids_available(*old(self)),
        ensures
            final(self).wf(),
            match r {
                Ok((i, id, bytes)) => call_transition(
                    *old(self),
                    *final(self),
                    None::<String>,
                    i as int,
                    id,
                    slot,
                ) && bytes@ == call_wire(id, "setline"@, Some(setline_params(lnum, text@))),
                Err(e) => e == LCError::UnknownBackend && !registered(
                    old(self).0.addrs@,
                    None::<String>,
                ) && final(self).0.addrs@ == old(self).0.addrs@ && final(self).0.docs@ == old(
                    self,
                ).0.docs@,
            },
    {
        let params = setline_params_bytes(lnum, text);
        match self.call(&None, "setline".to_owned(), Some(params), slot) {
            Ok((i, id, bytes)) => {
                proof {
                    assert(bytes@ == call_wire(id, "setline"@, Some(setline_params(lnum, text@))));
                }
                Ok((i, id, bytes))
            },
            Err(e) => Err(e),
        }
    }

    /// Open a file with the given goto command (`edit` by default). When the
    /// path is a `jdt://` class file, the embedding follows up with
    /// `command`, `class_file_contents` and `setline`.
    /// A blocking editor call: the embedding writes the frame and waits on
    /// the slot for the editor's reply.
    pub fn edit(&mut self, goto_cmd: &Option<Vec<u8>>, path: &[u8], slot: u64) -> (r: Result<(usize, u64, Vec<u8>), LCError>)
        requires
            old(self).wf(),
            ids_available(*old(self)),
        ensures
            final(self).wf(),
            match r {
                Ok((i, id, bytes)) => call_transition(
                    *old(self),
                    *final(self),
                    None::<String>,
                    i as int,
                    id,
                    slot,
                ) && bytes@ == call_wire(id, "s:Edit"@, Some(edit_params(goto_of(*goto_cmd), path@))),
                Err(e) => e == LCError::UnknownBackend && !registered(
                    old(self).0.addrs@,
                    None::<String>,
                ) && final(self).0.addrs@ == old(self).0.addrs@ && final(self).0.docs@ == old(
                    self,
                ).0.docs@,
            },
    {
        let params = edit_params_bytes(goto_cmd, path);
        match self.call(&None, "s:Edit".to_owned(), Some(params), slot) {
            Ok((i, id, bytes)) => {
                proof {
                    assert(bytes@ == call_wire(id, "s:Edit"@, Some(edit_params(goto_of(*goto_cmd), path@))));
                }
                Ok((i, id, bytes))
            },
            Err(e) => Err(e),
        }
    }

    /// Ask the Java backend for a class file's text.
    /// A blocking editor call: the embedding writes the frame and waits on
    /// the slot for the editor's reply.
    pub fn class_file_contents(&mut self, path: &[u8], slot: u64) -> (r: Result<(usize, u64, Vec<u8>), LCError>)
        requires
            old(self).wf(),
            ids_available(*old(self)),
        ensures
            final(self).wf(),
            match r {
                Ok((i, id, bytes)) => call_transition(
                    *old(self),
                    *final(self),
                    None::<String>,
                    i as int,
                    id,
                    slot,
                ) && bytes@ == call_wire(id, "java/classFileContents"@, Some(class_file_params(path@))),
                Err(e) => e == LCError::UnknownBackend && !registered(
                    old(self).0.addrs@,
                    None::<String>,
                ) && final(self).0.addrs@ == old(self).0.addrs@ && final(self).0.docs@ == old(
                    self,
                ).0.docs@,
            },
    {
        let params = class_file_params_bytes(path);
        match self.call(&None, "java/classFileContents".to_owned(), Some(params), slot) {
            Ok((i, id, bytes)) => {
                proof {
                    assert(bytes@ == call_wire(id, "java/classFileContents"@, Some(class_file_params(path@))));
                }
                Ok((i, id, bytes))
            },
            Err(e) => Err(e),
        }
    }

    /// Fill the quickfix list; the reply is a status.
    /// A blocking editor call: the embedding writes the frame and waits on
    /// the slot for the editor's reply.
    pub fn setqflist(&mut self, list: &Vec<QuickfixEntry>, action: &[u8], slot: u64) -> (r: Result<(usize, u64, Vec<u8>), LCError>)
        requires
            old(self).wf(),
            ids_available(*old(self)),
        ensures
            final(self).wf(),
            match r {
                Ok((i, id, bytes)) => call_transition(
                    *old(self),
                    *final(self),
                    None::<String>,
                    i as int,
                    id,
                    slot,
                ) && bytes@ == call_wire(id, "setqflist"@, Some(setqflist_params(list@, action@))),
                Err(e) => e == LCError::UnknownBackend && !registered(
                    old(self).0.addrs@,
                    None::<String>,
                ) && final(self).0.addrs@ == old(self).0.addrs@ && final(self).0.docs@ == old(
                    self,
                ).0.docs@,
            },
    {
        let params = setqflist_params_bytes(list, action);
        match self.call(&None, "setqflist".to_owned(), Some(params), slot) {
            Ok((i, id, bytes)) => {
                proof {
                    assert(bytes@ == call_wire(id, "setqflist"@, Some(setqflist_params(list@, action@))));
                }
                Ok((i, id, bytes))
            },
            Err(e) => Err(e),
        }
    }

    /// Set the quickfix list's title, once the fill succeeded.
    /// A blocking editor call: the embedding writes the frame and waits on
    /// the slot for the editor's reply.
    pub fn setqflist_title(&mut self, title: &[u8], slot: u64) -> (r: Result<(usize, u64, Vec<u8>), LCError>)
        requires
            old(self).wf(),
            ids_available(*old(self)),
        ensures
            final(self).wf(),
            match r {
                Ok((i, id, bytes)) => call_transition(
                    *old(self),
                    *final(self),
                    None::<String>,
                    i as int,
                    id,
                    slot,
                ) && bytes@ == call_wire(id, "setqflist"@, Some(setqflist_title_params(title@))),
                Err(e) => e == LCError::UnknownBackend && !registered(
                    old(self).0.addrs@,
                    None::<String>,
                ) && final(self).0.addrs@ == old(self).0.addrs@ && final(self).0.docs@ == old(
                    self,
                ).0.docs@,
            },
    {
        let params = setqflist_title_params_bytes(title);
        match self.call(&None, "setqflist".to_owned(), Some(params), slot) {
            Ok((i, id, bytes)) => {
                proof {
                    assert(bytes@ == call_wire(id, "setqflist"@, Some(setqflist_title_params(title@))));
                }
                Ok((i, id, bytes))
            },
            Err(e) => Err(e),
        }
    }

    /// Fill the location list; the reply is a status.
    /// A blocking editor call: the embedding writes the frame and waits on
    /// the slot for the editor's reply.
    pub fn setloclist(&mut self, list: &Vec<QuickfixEntry>, action: &[u8], slot: u64) -> (r: Result<(usize, u64, Vec<u8>), LCError>)
        requires
            old(self).wf(),
            ids_available(*old(self)),
        ensures
            final(self).wf(),
            match r {
                Ok((i, id, bytes)) => call_transition(
                    *old(self),
                    *final(self),
                    None::<String>,
                    i as int,
                    id,
                    slot,
                ) && bytes@ == call_wire(id, "setloclist"@, Some(setloclist_params(list@, action@))),
                Err(e) => e == LCError::UnknownBackend && !registered(
                    old(self).0.addrs@,
                    None::<String>,
                ) && final(self).0.addrs@ == old(self).0.addrs@ && final(self).0.docs@ == old(
                    self,
                ).0.docs@,
            },
    {
        let params = setloclist_params_bytes(list, action);
        match self.call(&None, "setloclist".to_owned(), Some(params), slot) {
            Ok((i, id, bytes)) => {
                proof {
                    assert(bytes@ == call_wire(id, "setloclist"@, Some(setloclist_params(list@, action@))));
                }
                Ok((i, id, bytes))
            },
            Err(e) => Err(e),
        }
    }

    /// Set the location list's title, once the fill succeeded.
    /// A blocking editor call: the embedding writes the frame and waits on
    /// the slot for the editor's reply.
    pub fn setloclist_title(&mut self, title: &[u8], slot: u64) -> (r: Result<(usize, u64, Vec<u8>), LCError>)
        requires
            old(self).wf(),
            ids_available(*old(self)),
        ensures
            final(self).wf(),
            match r {
                Ok((i, id, bytes)) => call_transition(
                    *old(self),
                    *final(self),
                    None::<String>,
                    i as int,
                    id,
                    slot,
                ) && bytes@ == call_wire(id, "setloclist"@, Some(setloclist_title_params(title@))),
                Err(e) => e == LCError::UnknownBackend && !registered(
                    old(self).0.addrs@,
                    None::<String>,
                ) && final(self).0.addrs@ == old(self).0.addrs@ && final(self).0.docs@ == old(
                    self,
                ).0.docs@,
            },
    {
        let params = setloclist_title_params_bytes(title);
        match self.call(&None, "setloclist".to_owned(), Some(params), slot) {
            Ok((i, id, bytes)) => {
                proof {
                    assert(bytes@ == call_wire(id, "setloclist"@, Some(setloclist_title_params(title@))));
                }
                Ok((i, id, bytes))
            },
            Err(e) => Err(e),
        }
    }
    /// Move the editor cursor to the given line and column.
    pub fn cursor(&self, lnum: u64, col: u64) -> (r: Result<(usize, Vec<u8>), LCError>)
        ensures
            match r {
                Ok((i, bytes)) => registered(self.0.addrs@, None::<String>) && 0 <= i
                    < self.0.addrs@.len() && same_identity(
                    self.0.addrs@[i as int].0,
                    None::<String>,
                ) && bytes@ == notif_wire("cursor"@, Some(cursor_params(lnum, col))),
                Err(e) => e == LCError::UnknownBackend && !registered(
                    self.0.addrs@,
                    None::<String>,
                ),
            },
    {
        let mut params: Vec<u8> = Vec::new();
        params.push(91);
        push_dec(&mut params, lnum);
        params.push(44);
        push_dec(&mut params, col);
        params.push(93);
        proof {
            assert(params@ =~= cursor_params(lnum, col));
        }
        match self.notify(&None, "cursor".to_owned(), Some(params)) {
            Ok((i, bytes)) => {
                proof {
                    assert(bytes@ == notif_wire("cursor"@, Some(cursor_params(lnum, col))));
                }
                Ok((i, bytes))
            },
            Err(e) => Err(e),
        }
    }
}

} // verus!
