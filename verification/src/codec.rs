//! The persisted record layout: a tagged, length-prefixed binary encoding of
//! [`TraceModel`] that round-trips every definition. Integers are eight-byte
//! little-endian, strings are UTF-8 bytes behind a byte-length prefix, and the
//! two tagged unions carry a one-byte tag.
use vstd::prelude::*;
use vstd::bytes::{
    spec_u64_to_le_bytes, spec_u64_from_le_bytes, lemma_auto_spec_u64_to_from_le_bytes,
    u64_to_le_bytes, u64_from_le_bytes,
};
use vstd::utf8::{encode_utf8, decode_utf8, valid_utf8};
use vstd::slice::{slice_subrange, slice_to_vec};
use vstd::assert_seqs_equal;

use crate::model::{Frequency, TraceContent, TraceContentV, TraceModel, TraceModelV, strings_view,
    pairs_view};

verus! {

broadcast use vstd::utf8::group_utf8_lib;

#[verifier::external_type_specification]
#[verifier::external_body]
pub struct ExFromUtf8Error(std::string::FromUtf8Error);

/// Relies on String::from_utf8: it returns the string holding exactly the
/// given bytes when they are valid UTF-8, and an error otherwise.
pub assume_specification[ String::from_utf8 ](v: Vec<u8>) -> (r: Result<
    String,
    std::string::FromUtf8Error,
>)
    ensures
        valid_utf8(v@) <==> r is Ok,
        r matches Ok(s) ==> s@ == decode_utf8(v@),
;

// ---------------------------------------------------------------------------
// Specification-level encoders
// ---------------------------------------------------------------------------
pub open spec fn enc_u64(x: u64) -> Seq<u8> {
    spec_u64_to_le_bytes(x)
}

pub open spec fn enc_str(s: Seq<char>) -> Seq<u8> {
    enc_u64(encode_utf8(s).len() as u64) + encode_utf8(s)
}

pub open spec fn enc_str_items(v: Seq<Seq<char>>) -> Seq<u8>
    decreases v.len(),
{
    if v.len() == 0 {
        Seq::<u8>::empty()
    } else {
        enc_str(v[0]) + enc_str_items(v.drop_first())
    }
}

pub open spec fn enc_strings(v: Seq<Seq<char>>) -> Seq<u8> {
    enc_u64(v.len() as u64) + enc_str_items(v)
}

pub open spec fn enc_pair_items(v: Seq<(Seq<char>, Seq<char>)>) -> Seq<u8>
    decreases v.len(),
{
    if v.len() == 0 {
        Seq::<u8>::empty()
    } else {
        enc_str(v[0].0) + enc_str(v[0].1) + enc_pair_items(v.drop_first())
    }
}

pub open spec fn enc_pairs(v: Seq<(Seq<char>, Seq<char>)>) -> Seq<u8> {
    enc_u64(v.len() as u64) + enc_pair_items(v)
}

pub open spec fn enc_freq(f: Frequency) -> Seq<u8> {
    match f {
        Frequency::Max => seq![0u8],
        Frequency::Default => seq![1u8],
        Frequency::Specific(n) => seq![2u8] + enc_u64(n as u64),
    }
}

pub open spec fn enc_content(c: TraceContentV) -> Seq<u8> {
    match c {
        TraceContentV::SystemTapV { function_list, process, args, envs } => seq![0u8]
            + enc_strings(function_list) + enc_str(process) + enc_strings(args) + enc_pairs(envs),
        TraceContentV::PerfBranchV { frequency, absolute_path, additional_args } => seq![1u8]
            + enc_freq(frequency) + enc_str(absolute_path) + enc_strings(additional_args),
    }
}

pub open spec fn spec_encode_model(m: TraceModelV) -> Seq<u8> {
    enc_str(m.name) + enc_u64(m.lasting as u64) + enc_u64(m.interval as u64) + enc_content(
        m.content,
    )
}

// ---------------------------------------------------------------------------
// Bounds under which a view can be written down at all
// ---------------------------------------------------------------------------
pub open spec fn str_fits(s: Seq<char>) -> bool {
    encode_utf8(s).len() <= u64::MAX
}

pub open spec fn strings_fit(v: Seq<Seq<char>>) -> bool {
    &&& v.len() <= u64::MAX
    &&& forall|i: int| 0 <= i < v.len() ==> str_fits(#[trigger] v[i])
}

pub open spec fn pairs_fit(v: Seq<(Seq<char>, Seq<char>)>) -> bool {
    &&& v.len() <= u64::MAX
    &&& forall|i: int| 0 <= i < v.len() ==> str_fits((#[trigger] v[i]).0) && str_fits(v[i].1)
}

pub open spec fn content_fits(c: TraceContentV) -> bool {
    match c {
        TraceContentV::SystemTapV { function_list, process, args, envs } => {
            &&& strings_fit(function_list)
            &&& str_fits(process)
            &&& strings_fit(args)
            &&& pairs_fit(envs)
        },
        TraceContentV::PerfBranchV { frequency, absolute_path, additional_args } => {
            &&& str_fits(absolute_path)
            &&& strings_fit(additional_args)
        },
    }
}

pub open spec fn model_fits(m: TraceModelV) -> bool {
    str_fits(m.name) && content_fits(m.content)
}

// ---------------------------------------------------------------------------
// Specification-level decoders
// ---------------------------------------------------------------------------
pub open spec fn dec_u64(s: Seq<u8>) -> Option<(u64, Seq<u8>)> {
    if s.len() >= 8 {
        Some((spec_u64_from_le_bytes(s.take(8)), s.skip(8)))
    } else {
        None
    }
}

pub open spec fn dec_str(s: Seq<u8>) -> Option<(Seq<char>, Seq<u8>)> {
    match dec_u64(s) {
        Some((n, r)) => if r.len() >= n && valid_utf8(r.take(n as int)) {
            Some((decode_utf8(r.take(n as int)), r.skip(n as int)))
        } else {
            None
        },
        None => None,
    }
}

pub open spec fn prepend_strs(pre: Seq<Seq<char>>, o: Option<(Seq<Seq<char>>, Seq<u8>)>) -> Option<
    (Seq<Seq<char>>, Seq<u8>),
> {
    match o {
        Some((xs, r)) => Some((pre + xs, r)),
        None => None,
    }
}

pub open spec fn dec_str_items(s: Seq<u8>, n: nat) -> Option<(Seq<Seq<char>>, Seq<u8>)>
    decreases n,
{
    if n == 0 {
        Some((Seq::<Seq<char>>::empty(), s))
    } else {
        match dec_str(s) {
            Some((x, r)) => prepend_strs(seq![x], dec_str_items(r, (n - 1) as nat)),
            None => None,
        }
    }
}

pub open spec fn dec_strings(s: Seq<u8>) -> Option<(Seq<Seq<char>>, Seq<u8>)> {
    match dec_u64(s) {
        Some((n, r)) => dec_str_items(r, n as nat),
        None => None,
    }
}

pub open spec fn prepend_pairs(
    pre: Seq<(Seq<char>, Seq<char>)>,
    o: Option<(Seq<(Seq<char>, Seq<char>)>, Seq<u8>)>,
) -> Option<(Seq<(Seq<char>, Seq<char>)>, Seq<u8>)> {
    match o {
        Some((xs, r)) => Some((pre + xs, r)),
        None => None,
    }
}

pub open spec fn dec_pair_items(s: Seq<u8>, n: nat) -> Option<
    (Seq<(Seq<char>, Seq<char>)>, Seq<u8>),
>
    decreases n,
{
    if n == 0 {
        Some((Seq::<(Seq<char>, Seq<char>)>::empty(), s))
    } else {
        match dec_str(s) {
            Some((k, r)) => match dec_str(r) {
                Some((v, r2)) => prepend_pairs(seq![(k, v)], dec_pair_items(r2, (n - 1) as nat)),
                None => None,
            },
            None => None,
        }
    }
}

pub open spec fn dec_pairs(s: Seq<u8>) -> Option<(Seq<(Seq<char>, Seq<char>)>, Seq<u8>)> {
    match dec_u64(s) {
        Some((n, r)) => dec_pair_items(r, n as nat),
        None => None,
    }
}

pub open spec fn dec_freq(s: Seq<u8>) -> Option<(Frequency, Seq<u8>)> {
    if s.len() < 1 {
        None
    } else if s[0] == 0 {
        Some((Frequency::Max, s.skip(1)))
    } else if s[0] == 1 {
        Some((Frequency::Default, s.skip(1)))
    } else if s[0] == 2 {
        match dec_u64(s.skip(1)) {
            Some((n, r)) => if n <= usize::MAX {
                Some((Frequency::Specific(n as usize), r))
            } else {
                None
            },
            None => None,
        }
    } else {
        None
    }
}

pub open spec fn dec_content(s: Seq<u8>) -> Option<(TraceContentV, Seq<u8>)> {
    if s.len() < 1 {
        None
    } else if s[0] == 0 {
        match dec_strings(s.skip(1)) {
            Some((function_list, r1)) => match dec_str(r1) {
                Some((process, r2)) => match dec_strings(r2) {
                    Some((args, r3)) => match dec_pairs(r3) {
                        Some((envs, r4)) => Some(
                            (TraceContentV::SystemTapV { function_list, process, args, envs }, r4),
                        ),
                        None => None,
                    },
                    None => None,
                },
                None => None,
            },
            None => None,
        }
    } else if s[0] == 1 {
        match dec_freq(s.skip(1)) {
            Some((frequency, r1)) => match dec_str(r1) {
                Some((absolute_path, r2)) => match dec_strings(r2) {
                    Some((additional_args, r3)) => Some(
                        (
                            TraceContentV::PerfBranchV {
                                frequency,
                                absolute_path,
                                additional_args,
                            },
                            r3,
                        ),
                    ),
                    None => None,
                },
                None => None,
            },
            None => None,
        }
    } else {
        None
    }
}

pub open spec fn dec_model(s: Seq<u8>) -> Option<(TraceModelV, Seq<u8>)> {
    match dec_str(s) {
        Some((name, r1)) => match dec_u64(r1) {
            Some((lasting, r2)) => match dec_u64(r2) {
                Some((interval, r3)) => if lasting <= usize::MAX && interval <= usize::MAX {
                    match dec_content(r3) {
                        Some((content, r4)) => Some(
                            (
                                TraceModelV {
                                    name,
                                    lasting: lasting as usize,
                                    interval: interval as usize,
                                    content,
                                },
                                r4,
                            ),
                        ),
                        None => None,
                    }
                } else {
                    None
                },
                None => None,
            },
            None => None,
        },
        None => None,
    }
}

/// The decoded definition, if the bytes are one whole well-formed record.
pub open spec fn spec_decode_model(s: Seq<u8>) -> Option<TraceModelV> {
    match dec_model(s) {
        Some((m, r)) => if r.len() == 0 {
            Some(m)
        } else {
            None
        },
        None => None,
    }
}

// ---------------------------------------------------------------------------
// Round trip: decoding what was encoded yields the encoded definition
// ---------------------------------------------------------------------------
proof fn lemma_split(a: Seq<u8>, b: Seq<u8>)
    ensures
        (a + b).len() == a.len() + b.len(),
        (a + b).take(a.len() as int) == a,
        (a + b).skip(a.len() as int) == b,
{
    assert_seqs_equal!((a + b).take(a.len() as int) == a);
    assert_seqs_equal!((a + b).skip(a.len() as int) == b);
}

proof fn lemma_rt_u64(x: u64, rest: Seq<u8>)
    ensures
        dec_u64(enc_u64(x) + rest) == Some((x, rest)),
{
    lemma_auto_spec_u64_to_from_le_bytes();
    lemma_split(enc_u64(x), rest);
}

proof fn lemma_rt_str(s: Seq<char>, rest: Seq<u8>)
    requires
        str_fits(s),
    ensures
        dec_str(enc_str(s) + rest) == Some((s, rest)),
{
    let bs = encode_utf8(s);
    let n = bs.len() as u64;
    assert(enc_str(s) + rest =~= enc_u64(n) + (bs + rest));
    lemma_rt_u64(n, bs + rest);
    lemma_split(bs, rest);
}

proof fn lemma_rt_str_items(v: Seq<Seq<char>>, rest: Seq<u8>)
    requires
        forall|i: int| 0 <= i < v.len() ==> str_fits(#[trigger] v[i]),
    ensures
        dec_str_items(enc_str_items(v) + rest, v.len()) == Some((v, rest)),
    decreases v.len(),
{
    if v.len() == 0 {
        assert(enc_str_items(v) + rest =~= rest);
        assert(dec_str_items(rest, 0) == Some((Seq::<Seq<char>>::empty(), rest)));
        assert(v =~= Seq::<Seq<char>>::empty());
    } else {
        let tail = v.drop_first();
        assert(enc_str_items(v) + rest =~= enc_str(v[0]) + (enc_str_items(tail) + rest));
        lemma_rt_str(v[0], enc_str_items(tail) + rest);
        lemma_rt_str_items(tail, rest);
        assert(seq![v[0]] + tail =~= v);
    }
}

proof fn lemma_rt_strings(v: Seq<Seq<char>>, rest: Seq<u8>)
    requires
        strings_fit(v),
    ensures
        dec_strings(enc_strings(v) + rest) == Some((v, rest)),
{
    assert(enc_strings(v) + rest =~= enc_u64(v.len() as u64) + (enc_str_items(v) + rest));
    lemma_rt_u64(v.len() as u64, enc_str_items(v) + rest);
    lemma_rt_str_items(v, rest);
}

proof fn lemma_rt_pair_items(v: Seq<(Seq<char>, Seq<char>)>, rest: Seq<u8>)
    requires
        forall|i: int| 0 <= i < v.len() ==> str_fits((#[trigger] v[i]).0) && str_fits(v[i].1),
    ensures
        dec_pair_items(enc_pair_items(v) + rest, v.len()) == Some((v, rest)),
    decreases v.len(),
{
    if v.len() == 0 {
        assert(enc_pair_items(v) + rest =~= rest);
        assert(v =~= Seq::<(Seq<char>, Seq<char>)>::empty());
    } else {
        let tail = v.drop_first();
        assert(enc_pair_items(v) + rest =~= enc_str(v[0].0) + (enc_str(v[0].1) + (enc_pair_items(
            tail,
        ) + rest)));
        lemma_rt_str(v[0].0, enc_str(v[0].1) + (enc_pair_items(tail) + rest));
        lemma_rt_str(v[0].1, enc_pair_items(tail) + rest);
        lemma_rt_pair_items(tail, rest);
        assert(seq![(v[0].0, v[0].1)] + tail =~= v);
    }
}

proof fn lemma_rt_pairs(v: Seq<(Seq<char>, Seq<char>)>, rest: Seq<u8>)
    requires
        pairs_fit(v),
    ensures
        dec_pairs(enc_pairs(v) + rest) == Some((v, rest)),
{
    assert(enc_pairs(v) + rest =~= enc_u64(v.len() as u64) + (enc_pair_items(v) + rest));
    lemma_rt_u64(v.len() as u64, enc_pair_items(v) + rest);
    lemma_rt_pair_items(v, rest);
}

proof fn lemma_rt_freq(f: Frequency, rest: Seq<u8>)
    ensures
        dec_freq(enc_freq(f) + rest) == Some((f, rest)),
{
    match f {
        Frequency::Max => {
            assert((enc_freq(f) + rest).skip(1) =~= rest);
        },
        Frequency::Default => {
            assert((enc_freq(f) + rest).skip(1) =~= rest);
        },
        Frequency::Specific(n) => {
            assert((enc_freq(f) + rest).skip(1) =~= enc_u64(n as u64) + rest);
            lemma_rt_u64(n as u64, rest);
        },
    }
}

proof fn lemma_rt_content(c: TraceContentV, rest: Seq<u8>)
    requires
        content_fits(c),
    ensures
        dec_content(enc_content(c) + rest) == Some((c, rest)),
{
    match c {
        TraceContentV::SystemTapV { function_list, process, args, envs } => {
            let t4 = enc_pairs(envs) + rest;
            let t3 = enc_strings(args) + t4;
            let t2 = enc_str(process) + t3;
            let t1 = enc_strings(function_list) + t2;
            assert((enc_content(c) + rest).skip(1) =~= t1);
            lemma_rt_strings(function_list, t2);
            lemma_rt_str(process, t3);
            lemma_rt_strings(args, t4);
            lemma_rt_pairs(envs, rest);
        },
        TraceContentV::PerfBranchV { frequency, absolute_path, additional_args } => {
            let t3 = enc_strings(additional_args) + rest;
            let t2 = enc_str(absolute_path) + t3;
            let t1 = enc_freq(frequency) + t2;
            assert((enc_content(c) + rest).skip(1) =~= t1);
            lemma_rt_freq(frequency, t2);
            lemma_rt_str(absolute_path, t3);
            lemma_rt_strings(additional_args, rest);
        },
    }
}

/// Law: the record layout loses nothing — decoding the encoding of any
/// definition whose strings and lists can be written down yields exactly
/// that definition.
pub proof fn lemma_model_round_trip(m: TraceModelV)
    requires
        model_fits(m),
    ensures
        spec_decode_model(spec_encode_model(m)) == Some(m),
{
    let rest = Seq::<u8>::empty();
    let t3 = enc_content(m.content) + rest;
    let t2 = enc_u64(m.interval as u64) + t3;
    let t1 = enc_u64(m.lasting as u64) + t2;
    assert(spec_encode_model(m) + rest =~= enc_str(m.name) + t1);
    lemma_rt_str(m.name, t1);
    lemma_rt_u64(m.lasting as u64, t2);
    lemma_rt_u64(m.interval as u64, t3);
    lemma_rt_content(m.content, rest);
    assert(spec_encode_model(m) + rest =~= spec_encode_model(m));
}

// ---------------------------------------------------------------------------
// Executable encoder
// ---------------------------------------------------------------------------
fn emit_u64(out: &mut Vec<u8>, x: u64)
    ensures
        final(out)@ == old(out)@ + enc_u64(x),
{
    let mut bs = u64_to_le_bytes(x);
    out.append(&mut bs);
}

fn emit_str(out: &mut Vec<u8>, s: &str)
    ensures
        final(out)@ == old(out)@ + enc_str(s@),
        str_fits(s@),
{
    let bytes = s.as_bytes();
    let n = bytes.len();
    emit_u64(out, n as u64);
    let mut bv = slice_to_vec(bytes);
    out.append(&mut bv);
    proof {
        assert(final(out)@ =~= old(out)@ + enc_str(s@));
    }
}

fn emit_strings(out: &mut Vec<u8>, v: &Vec<String>)
    ensures
        final(out)@ == old(out)@ + enc_strings(strings_view(v@)),
        strings_fit(strings_view(v@)),
{
    let ghost sv = strings_view(v@);
    emit_u64(out, v.len() as u64);
    let mut i: usize = 0;
    while i < v.len()
        invariant
            0 <= i <= v.len(),
            sv == strings_view(v@),
            sv.len() == v@.len(),
            out@ == old(out)@ + enc_u64(v@.len() as u64) + enc_str_items(sv.take(i as int)),
            forall|j: int| 0 <= j < i ==> str_fits(#[trigger] sv[j]),
        decreases v.len() - i,
    {
        let ghost prev = out@;
        emit_str(out, v[i].as_str());
        proof {
            lemma_enc_str_items_snoc(sv.take(i as int), sv[i as int]);
            assert(sv.take(i as int).push(sv[i as int]) =~= sv.take(i as int + 1));
            assert(out@ =~= old(out)@ + enc_u64(v@.len() as u64) + enc_str_items(
                sv.take(i as int + 1),
            ));
        }
        i = i + 1;
    }
    proof {
        assert(sv.take(v@.len() as int) =~= sv);
    }
}

proof fn lemma_enc_str_items_snoc(v: Seq<Seq<char>>, x: Seq<char>)
    ensures
        enc_str_items(v.push(x)) == enc_str_items(v) + enc_str(x),
    decreases v.len(),
{
    if v.len() == 0 {
        assert(v.push(x).drop_first() =~= Seq::<Seq<char>>::empty());
        assert(v.push(x)[0] == x);
        assert(enc_str_items(Seq::<Seq<char>>::empty()) == Seq::<u8>::empty());
        assert(enc_str_items(v.push(x)) == enc_str(x) + enc_str_items(v.push(x).drop_first()));
        assert(enc_str_items(v.push(x)) =~= enc_str(x));
        assert(enc_str_items(v) + enc_str(x) =~= enc_str(x));
    } else {
        assert(v.push(x)[0] == v[0]);
        assert(v.push(x).drop_first() =~= v.drop_first().push(x));
        assert(enc_str_items(v.push(x)) == enc_str(v[0]) + enc_str_items(v.drop_first().push(x)));
        lemma_enc_str_items_snoc(v.drop_first(), x);
        assert(enc_str_items(v) == enc_str(v[0]) + enc_str_items(v.drop_first()));
        assert(enc_str_items(v.push(x)) =~= enc_str_items(v) + enc_str(x));
    }
}

proof fn lemma_enc_pair_items_snoc(v: Seq<(Seq<char>, Seq<char>)>, x: (Seq<char>, Seq<char>))
    ensures
        enc_pair_items(v.push(x)) == enc_pair_items(v) + enc_str(x.0) + enc_str(x.1),
    decreases v.len(),
{
    if v.len() == 0 {
        assert(v.push(x).drop_first() =~= Seq::<(Seq<char>, Seq<char>)>::empty());
        assert(v.push(x)[0] == x);
        assert(enc_pair_items(Seq::<(Seq<char>, Seq<char>)>::empty()) == Seq::<u8>::empty());
        assert(enc_pair_items(v.push(x)) == enc_str(x.0) + enc_str(x.1) + enc_pair_items(
            v.push(x).drop_first(),
        ));
        assert(enc_pair_items(v.push(x)) =~= enc_pair_items(v) + enc_str(x.0) + enc_str(x.1));
    } else {
        assert(v.push(x)[0] == v[0]);
        assert(v.push(x).drop_first() =~= v.drop_first().push(x));
        assert(enc_pair_items(v.push(x)) == enc_str(v[0].0) + enc_str(v[0].1) + enc_pair_items(
            v.drop_first().push(x),
        ));
        lemma_enc_pair_items_snoc(v.drop_first(), x);
        assert(enc_pair_items(v) == enc_str(v[0].0) + enc_str(v[0].1) + enc_pair_items(
            v.drop_first(),
        ));
        assert(enc_pair_items(v.push(x)) =~= enc_pair_items(v) + enc_str(x.0) + enc_str(x.1));
    }
}

fn emit_pairs(out: &mut Vec<u8>, v: &Vec<(String, String)>)
    ensures
        final(out)@ == old(out)@ + enc_pairs(pairs_view(v@)),
        pairs_fit(pairs_view(v@)),
{
    let ghost sv = pairs_view(v@);
    emit_u64(out, v.len() as u64);
    let mut i: usize = 0;
    while i < v.len()
        invariant
            0 <= i <= v.len(),
            sv == pairs_view(v@),
            sv.len() == v@.len(),
            out@ == old(out)@ + enc_u64(v@.len() as u64) + enc_pair_items(sv.take(i as int)),
            forall|j: int| 0 <= j < i ==> str_fits((#[trigger] sv[j]).0) && str_fits(sv[j].1),
        decreases v.len() - i,
    {
        emit_str(out, v[i].0.as_str());
        emit_str(out, v[i].1.as_str());
        proof {
            lemma_enc_pair_items_snoc(sv.take(i as int), sv[i as int]);
            assert(sv.take(i as int).push(sv[i as int]) =~= sv.take(i as int + 1));
            assert(out@ =~= old(out)@ + enc_u64(v@.len() as u64) + enc_pair_items(
                sv.take(i as int + 1),
            ));
        }
        i = i + 1;
    }
    proof {
        assert(sv.take(v@.len() as int) =~= sv);
    }
}

fn emit_freq(out: &mut Vec<u8>, f: &Frequency)
    ensures
        final(out)@ == old(out)@ + enc_freq(*f),
{
    match f {
        Frequency::Max => {
            out.push(0u8);
            proof {
                assert(final(out)@ =~= old(out)@ + enc_freq(*f));
            }
        },
        Frequency::Default => {
            out.push(1u8);
            proof {
                assert(final(out)@ =~= old(out)@ + enc_freq(*f));
            }
        },
        Frequency::Specific(n) => {
            out.push(2u8);
            emit_u64(out, *n as u64);
            proof {
                assert(final(out)@ =~= old(out)@ + enc_freq(*f));
            }
        },
    }
}

fn emit_content(out: &mut Vec<u8>, c: &TraceContent)
    ensures
        final(out)@ == old(out)@ + enc_content(c@),
        content_fits(c@),
{
    match c {
        TraceContent::SystemTap { function_list, process, args, envs } => {
            out.push(0u8);
            emit_strings(out, function_list);
            emit_str(out, process.as_str());
            emit_strings(out, args);
            emit_pairs(out, envs);
            proof {
                assert(final(out)@ =~= old(out)@ + enc_content(c@));
            }
        },
        TraceContent::PerfBranch { frequency, absolute_path, additional_args } => {
            out.push(1u8);
            emit_freq(out, frequency);
            emit_str(out, absolute_path.as_str());
            emit_strings(out, additional_args);
            proof {
                assert(final(out)@ =~= old(out)@ + enc_content(c@));
            }
        },
    }
}

/// Serialize a definition into the persisted record layout.
pub fn encode_model(m: &TraceModel) -> (r: Vec<u8>)
    ensures
        r@ == spec_encode_model(m@),
        model_fits(m@),
{
    let mut out: Vec<u8> = Vec::new();
    emit_str(&mut out, m.name.as_str());
    emit_u64(&mut out, m.lasting as u64);
    emit_u64(&mut out, m.interval as u64);
    emit_content(&mut out, &m.content);
    proof {
        assert(out@ =~= spec_encode_model(m@));
    }
    out
}

// ---------------------------------------------------------------------------
// Executable decoder
// ---------------------------------------------------------------------------
fn take_u64<'a>(s: &'a [u8]) -> (r: Option<(u64, &'a [u8])>)
    ensures
        match r {
            Some((x, rest)) => dec_u64(s@) == Some((x, rest@)),
            None => dec_u64(s@) is None,
        },
{
    if s.len() < 8 {
        None
    } else {
        let head = slice_subrange(s, 0, 8);
        let x = u64_from_le_bytes(head);
        let rest = slice_subrange(s, 8, s.len());
        proof {
            assert(s@.subrange(0, 8) =~= s@.take(8));
            assert(s@.subrange(8, s@.len() as int) =~= s@.skip(8));
        }
        Some((x, rest))
    }
}

fn take_str<'a>(s: &'a [u8]) -> (r: Option<(String, &'a [u8])>)
    ensures
        match r {
            Some((x, rest)) => dec_str(s@) == Some((x@, rest@)),
            None => dec_str(s@) is None,
        },
{
    match take_u64(s) {
        None => None,
        Some((n, r1)) => {
            if n > r1.len() as u64 {
                None
            } else {
                let nb = n as usize;
                let head = slice_subrange(r1, 0, nb);
                let rest = slice_subrange(r1, nb, r1.len());
                proof {
                    assert(r1@.subrange(0, nb as int) =~= r1@.take(n as int));
                    assert(r1@.subrange(nb as int, r1@.len() as int) =~= r1@.skip(n as int));
                }
                let bytes = slice_to_vec(head);
                match String::from_utf8(bytes) {
                    Ok(st) => Some((st, rest)),
                    Err(_) => None,
                }
            }
        },
    }
}

fn take_strings<'a>(s: &'a [u8]) -> (r: Option<(Vec<String>, &'a [u8])>)
    ensures
        match r {
            Some((v, rest)) => dec_strings(s@) == Some((strings_view(v@), rest@)),
            None => dec_strings(s@) is None,
        },
{
    match take_u64(s) {
        None => None,
        Some((n, r1)) => {
            let mut acc: Vec<String> = Vec::new();
            let mut cur: &[u8] = r1;
            let mut i: u64 = 0;
            loop
                invariant
                    0 <= i <= n,
                    dec_strings(s@) == dec_str_items(r1@, n as nat),
                    dec_str_items(r1@, n as nat) == prepend_strs(
                        strings_view(acc@),
                        dec_str_items(cur@, (n - i) as nat),
                    ),
                decreases n - i,
            {
                if i == n {
                    proof {
                        assert(dec_str_items(cur@, 0) == Some((Seq::<Seq<char>>::empty(), cur@)));
                        assert(strings_view(acc@) + Seq::<Seq<char>>::empty() =~= strings_view(
                            acc@,
                        ));
                    }
                    return Some((acc, cur));
                }
                match take_str(cur) {
                    None => {
                        return None;
                    },
                    Some((st, rest)) => {
                        proof {
                            let k = (n - i) as nat;
                            assert(dec_str_items(cur@, k) == prepend_strs(
                                seq![st@],
                                dec_str_items(rest@, (k - 1) as nat),
                            ));
                            assert(strings_view(acc@.push(st)) =~= strings_view(acc@).push(st@));
                            assert forall|o: Option<(Seq<Seq<char>>, Seq<u8>)>|
                                prepend_strs(strings_view(acc@), prepend_strs(seq![st@], o))
                                    == prepend_strs(strings_view(acc@).push(st@), o) by {
                                match o {
                                    Some((xs, rr)) => {
                                        assert(strings_view(acc@) + (seq![st@] + xs)
                                            =~= strings_view(acc@).push(st@) + xs);
                                    },
                                    None => {},
                                }
                            }
                        }
                        acc.push(st);
                        cur = rest;
                        i = i + 1;
                    },
                }
            }
        },
    }
}

fn take_pairs<'a>(s: &'a [u8]) -> (r: Option<(Vec<(String, String)>, &'a [u8])>)
    ensures
        match r {
            Some((v, rest)) => dec_pairs(s@) == Some((pairs_view(v@), rest@)),
            None => dec_pairs(s@) is None,
        },
{
    match take_u64(s) {
        None => None,
        Some((n, r1)) => {
            let mut acc: Vec<(String, String)> = Vec::new();
            let mut cur: &[u8] = r1;
            let mut i: u64 = 0;
            loop
                invariant
                    0 <= i <= n,
                    dec_pairs(s@) == dec_pair_items(r1@, n as nat),
                    dec_pair_items(r1@, n as nat) == prepend_pairs(
                        pairs_view(acc@),
                        dec_pair_items(cur@, (n - i) as nat),
                    ),
                decreases n - i,
            {
                if i == n {
                    proof {
                        assert(pairs_view(acc@) + Seq::<(Seq<char>, Seq<char>)>::empty()
                            =~= pairs_view(acc@));
                    }
                    return Some((acc, cur));
                }
                match take_str(cur) {
                    None => {
                        return None;
                    },
                    Some((k, rest1)) => {
                        match take_str(rest1) {
                            None => {
                                return None;
                            },
                            Some((v, rest2)) => {
                                proof {
                                    let kk = (n - i) as nat;
                                    assert(dec_pair_items(cur@, kk) == prepend_pairs(
                                        seq![(k@, v@)],
                                        dec_pair_items(rest2@, (kk - 1) as nat),
                                    ));
                                    assert(pairs_view(acc@.push((k, v))) =~= pairs_view(
                                        acc@,
                                    ).push((k@, v@)));
                                    assert forall|o: Option<(Seq<(Seq<char>, Seq<char>)>, Seq<u8>)>|
                                        prepend_pairs(
                                            pairs_view(acc@),
                                            prepend_pairs(seq![(k@, v@)], o),
                                        ) == prepend_pairs(pairs_view(acc@).push((k@, v@)), o) by {
                                        match o {
                                            Some((xs, rr)) => {
                                                assert(pairs_view(acc@) + (seq![(k@, v@)] + xs)
                                                    =~= pairs_view(acc@).push((k@, v@)) + xs);
                                            },
                                            None => {},
                                        }
                                    }
                                }
                                acc.push((k, v));
                                cur = rest2;
                                i = i + 1;
                            },
                        }
                    },
                }
            }
        },
    }
}

fn take_byte<'a>(s: &'a [u8]) -> (r: Option<(u8, &'a [u8])>)
    ensures
        match r {
            Some((b, rest)) => s@.len() >= 1 && b == s@[0] && rest@ == s@.skip(1),
            None => s@.len() == 0,
        },
{
    if s.len() < 1 {
        None
    } else {
        let head = slice_subrange(s, 0, 1);
        let rest = slice_subrange(s, 1, s.len());
        proof {
            assert(s@.subrange(1, s@.len() as int) =~= s@.skip(1));
        }
        Some((head[0], rest))
    }
}

fn take_freq<'a>(s: &'a [u8]) -> (r: Option<(Frequency, &'a [u8])>)
    ensures
        match r {
            Some((f, rest)) => dec_freq(s@) == Some((f, rest@)),
            None => dec_freq(s@) is None,
        },
{
    match take_byte(s) {
        None => None,
        Some((tag, r1)) => {
            if tag == 0 {
                Some((Frequency::Max, r1))
            } else if tag == 1 {
                Some((Frequency::Default, r1))
            } else if tag == 2 {
                match take_u64(r1) {
                    Some((n, r2)) => {
                        if n > usize::MAX as u64 {
                            None
                        } else {
                            Some((Frequency::Specific(n as usize), r2))
                        }
                    },
                    None => None,
                }
            } else {
                None
            }
        },
    }
}

fn take_content<'a>(s: &'a [u8]) -> (r: Option<(TraceContent, &'a [u8])>)
    ensures
        match r {
            Some((c, rest)) => dec_content(s@) == Some((c@, rest@)),
            None => dec_content(s@) is None,
        },
{
    match take_byte(s) {
        None => None,
        Some((tag, r0)) => {
            if tag == 0 {
                match take_strings(r0) {
                    None => None,
                    Some((function_list, r1)) => match take_str(r1) {
                        None => None,
                        Some((process, r2)) => match take_strings(r2) {
                            None => None,
                            Some((args, r3)) => match take_pairs(r3) {
                                None => None,
                                Some((envs, r4)) => Some(
                                    (
                                        TraceContent::SystemTap {
                                            function_list,
                                            process,
                                            args,
                                            envs,
                                        },
                                        r4,
                                    ),
                                ),
                            },
                        },
                    },
                }
            } else if tag == 1 {
                match take_freq(r0) {
                    None => None,
                    Some((frequency, r1)) => match take_str(r1) {
                        None => None,
                        Some((absolute_path, r2)) => match take_strings(r2) {
                            None => None,
                            Some((additional_args, r3)) => Some(
                                (
                                    TraceContent::PerfBranch {
                                        frequency,
                                        absolute_path,
                                        additional_args,
                                    },
                                    r3,
                                ),
                            ),
                        },
                    },
                }
            } else {
                None
            }
        },
    }
}

/// Parse one whole persisted record back into a definition.
pub fn decode_model(bytes: &[u8]) -> (r: Option<TraceModel>)
    ensures
        match r {
            Some(m) => spec_decode_model(bytes@) == Some(m@),
            None => spec_decode_model(bytes@) is None,
        },
{
    match take_str(bytes) {
        None => None,
        Some((name, r1)) => match take_u64(r1) {
            None => None,
            Some((lasting, r2)) => match take_u64(r2) {
                None => None,
                Some((interval, r3)) => {
                    if lasting > usize::MAX as u64 || interval > usize::MAX as u64 {
                        None
                    } else {
                        match take_content(r3) {
                            None => None,
                            Some((content, r4)) => {
                                if r4.len() == 0 {
                                    Some(
                                        TraceModel {
                                            name,
                                            lasting: lasting as usize,
                                            interval: interval as usize,
                                            content,
                                        },
                                    )
                                } else {
                                    None
                                }
                            },
                        }
                    }
                },
            },
        },
    }
}

} // verus!
