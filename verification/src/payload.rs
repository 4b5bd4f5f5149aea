//! The NUL-terminated string payloads that the xeniface driver exchanges:
//! requests are the strings' bytes, each followed by a NUL, with one more NUL
//! after a list of two or more strings; replies are one NUL-terminated string
//! or a sequence of NUL-separated fields.
use vstd::prelude::*;
use vstd::string::*;

verus! {

/// The bytes of each string, each followed by a NUL byte.
pub open spec fn terminated(ss: Seq<Seq<u8>>) -> Seq<u8>
    decreases ss.len(),
{
    if ss.len() == 0 {
        seq![]
    } else {
        ss[0] + seq![0u8] + terminated(ss.drop_first())
    }
}

/// The request payload made of the strings `ss`: every string NUL-terminated,
/// and one more NUL closing a list of two or more strings.
pub open spec fn payload_of(ss: Seq<Seq<u8>>) -> Seq<u8> {
    if ss.len() > 1 {
        terminated(ss).push(0u8)
    } else {
        terminated(ss)
    }
}

/// The UTF-8 bytes of each string.
pub open spec fn bytes_of_strs(strings: Seq<&str>) -> Seq<Seq<u8>> {
    strings.map_values(|s: &str| s.spec_bytes())
}

/// `s` without its last byte when that byte is a NUL.
pub open spec fn strip_nul(s: Seq<u8>) -> Seq<u8> {
    if s.len() > 0 && s.last() == 0 {
        s.drop_last()
    } else {
        s
    }
}

/// The index of the first NUL byte of `s`, or its length when it holds none.
pub open spec fn nul_index(s: Seq<u8>) -> nat
    decreases s.len(),
{
    if s.len() == 0 {
        0
    } else if s[0] == 0 {
        0
    } else {
        1 + nul_index(s.drop_first())
    }
}

/// The fields of a reply: the runs of bytes that a NUL ends, and a last run
/// with no NUL after it when the reply does not end with a NUL.
pub open spec fn nul_fields(s: Seq<u8>) -> Seq<Seq<u8>>
    decreases s.len(),
{
    if s.len() == 0 {
        seq![]
    } else {
        let i = nul_index(s);
        if i < s.len() {
            seq![s.take(i as int)] + nul_fields(s.skip(i + 1 as int))
        } else {
            seq![s]
        }
    }
}

/// Whether no byte of `s` is a NUL.
pub open spec fn nul_free(s: Seq<u8>) -> bool {
    forall|k: int| 0 <= k < s.len() ==> s[k] != 0
}

proof fn lemma_terminated_push(ss: Seq<Seq<u8>>, x: Seq<u8>)
    ensures
        terminated(ss.push(x)) == terminated(ss) + x + seq![0u8],
    decreases ss.len(),
{
    if ss.len() == 0 {
        assert(ss.push(x).drop_first() =~= Seq::<Seq<u8>>::empty());
        assert(terminated(ss.push(x).drop_first()) == Seq::<u8>::empty());
        assert(ss.push(x)[0] == x);
        assert(terminated(ss) == Seq::<u8>::empty());
        assert(terminated(ss.push(x)) =~= terminated(ss) + x + seq![0u8]);
    } else {
        lemma_terminated_push(ss.drop_first(), x);
        assert(ss.push(x).drop_first() =~= ss.drop_first().push(x));
        assert(terminated(ss.push(x)) =~= terminated(ss) + x + seq![0u8]);
    }
}

proof fn lemma_nul_index_at(s: Seq<u8>, m: int)
    requires
        0 <= m < s.len(),
        s[m] == 0,
        forall|k: int| 0 <= k < m ==> s[k] != 0,
    ensures
        nul_index(s) == m,
    decreases m,
{
    if m > 0 {
        lemma_nul_index_at(s.drop_first(), m - 1);
    }
}

proof fn lemma_nul_index_none(s: Seq<u8>)
    requires
        nul_free(s),
    ensures
        nul_index(s) == s.len(),
    decreases s.len(),
{
    if s.len() > 0 {
        lemma_nul_index_none(s.drop_first());
    }
}

/// Splitting off the first field of a reply whose byte `m` is its first NUL.
proof fn lemma_fields_split(s: Seq<u8>, m: int)
    requires
        0 <= m < s.len(),
        s[m] == 0,
        forall|k: int| 0 <= k < m ==> s[k] != 0,
    ensures
        nul_fields(s) == seq![s.take(m)] + nul_fields(s.skip(m + 1)),
{
    lemma_nul_index_at(s, m);
}

/// A NUL-free string followed by a NUL and the rest of a reply is the
/// reply's first field.
proof fn lemma_fields_prefix(x: Seq<u8>, rest: Seq<u8>)
    requires
        nul_free(x),
    ensures
        nul_fields(x + seq![0u8] + rest) == seq![x] + nul_fields(rest),
{
    let s = x + seq![0u8] + rest;
    lemma_fields_split(s, x.len() as int);
    assert(s.take(x.len() as int) =~= x);
    assert(s.skip(x.len() + 1 as int) =~= rest);
}

proof fn lemma_fields_terminated(ss: Seq<Seq<u8>>, t: Seq<u8>)
    requires
        forall|i: int| 0 <= i < ss.len() ==> nul_free(#[trigger] ss[i]),
    ensures
        nul_fields(terminated(ss) + t) == ss + nul_fields(t),
    decreases ss.len(),
{
    if ss.len() == 0 {
        assert(terminated(ss) + t =~= t);
        assert(ss + nul_fields(t) =~= nul_fields(t));
    } else {
        let rest = terminated(ss.drop_first()) + t;
        assert(terminated(ss) + t =~= ss[0] + seq![0u8] + rest);
        lemma_fields_prefix(ss[0], rest);
        lemma_fields_terminated(ss.drop_first(), t);
        assert(seq![ss[0]] + (ss.drop_first() + nul_fields(t)) =~= ss + nul_fields(t));
    }
}

/// Reading back the fields of a payload gives the strings it was made of,
/// followed by one empty field where two or more strings were packed (their
/// list ends with a second NUL). This holds where no string holds a NUL byte.
pub proof fn lemma_payload_fields(ss: Seq<Seq<u8>>)
    requires
        forall|i: int| 0 <= i < ss.len() ==> nul_free(#[trigger] ss[i]),
    ensures
        nul_fields(payload_of(ss)) == (if ss.len() > 1 {
            ss.push(Seq::<u8>::empty())
        } else {
            ss
        }),
{
    if ss.len() > 1 {
        lemma_fields_terminated(ss, seq![0u8]);
        assert(terminated(ss).push(0u8) =~= terminated(ss) + seq![0u8]);
        let z = seq![0u8];
        lemma_fields_split(z, 0);
        assert(z.take(0) =~= Seq::<u8>::empty());
        assert(z.skip(1) =~= Seq::<u8>::empty());
        assert(nul_fields(z) =~= seq![Seq::<u8>::empty()]);
        assert(ss + seq![Seq::<u8>::empty()] =~= ss.push(Seq::<u8>::empty()));
    } else {
        lemma_fields_terminated(ss, Seq::<u8>::empty());
        assert(terminated(ss) + Seq::<u8>::empty() =~= terminated(ss));
        assert(ss + Seq::<Seq<u8>>::empty() =~= ss);
    }
}

/// The reply string read back from the payload of one string is that string,
/// whatever bytes it holds.
pub proof fn lemma_single_payload_string(s: Seq<u8>)
    ensures
        strip_nul(payload_of(seq![s])) == s,
{
    assert(seq![s].drop_first() =~= Seq::<Seq<u8>>::empty());
    assert(terminated(seq![s].drop_first()) == Seq::<u8>::empty());
    assert(payload_of(seq![s]) =~= s.push(0u8));
    assert(s.push(0u8).drop_last() =~= s);
}

/// What `nul_index` finds: the bytes before it are not NUL, and it is the
/// position of a NUL unless it is the end.
proof fn lemma_nul_index_props(s: Seq<u8>)
    ensures
        nul_index(s) <= s.len(),
        forall|k: int| 0 <= k < nul_index(s) ==> s[k] != 0,
        nul_index(s) < s.len() ==> s[nul_index(s) as int] == 0,
    decreases s.len(),
{
    if s.len() > 0 && s[0] != 0 {
        let t = s.drop_first();
        lemma_nul_index_props(t);
        assert forall|k: int| 0 <= k < nul_index(s) implies s[k] != 0 by {
            if k > 0 {
                assert(s[k] == t[k - 1]);
            }
        }
    }
}

/// Framing the fields of a reply again, each followed by a NUL, gives the
/// reply back, with a NUL added when it did not end with one; no field holds
/// a NUL.
pub proof fn lemma_fields_frame_reply(s: Seq<u8>)
    ensures
        terminated(nul_fields(s)) == (if s.len() == 0 || s.last() == 0 {
            s
        } else {
            s.push(0u8)
        }),
        forall|i: int| 0 <= i < nul_fields(s).len() ==> nul_free(#[trigger] nul_fields(s)[i]),
    decreases s.len(),
{
    if s.len() > 0 {
        lemma_nul_index_props(s);
        let i = nul_index(s);
        let f = nul_fields(s);
        if i < s.len() {
            let rest = s.skip(i + 1 as int);
            lemma_fields_frame_reply(rest);
            assert(f == seq![s.take(i as int)] + nul_fields(rest));
            assert(f.drop_first() =~= nul_fields(rest));
            assert(f[0] == s.take(i as int));
            if rest.len() == 0 {
                assert(s =~= s.take(i as int) + seq![0u8]);
                assert(terminated(nul_fields(rest)) == Seq::<u8>::empty());
                assert(terminated(f) =~= s);
            } else {
                assert(rest.last() == s.last());
                assert(s =~= s.take(i as int) + seq![0u8] + rest);
                if s.last() == 0 {
                    assert(terminated(f) =~= s);
                } else {
                    assert(terminated(f) =~= s.push(0u8));
                }
            }
            assert forall|j: int| 0 <= j < f.len() implies nul_free(#[trigger] f[j]) by {
                if j > 0 {
                    assert(f[j] == nul_fields(rest)[j - 1]);
                }
            }
        } else {
            assert(f == seq![s]);
            assert(f.drop_first() =~= Seq::<Seq<u8>>::empty());
            assert(terminated(f.drop_first()) == Seq::<u8>::empty());
            assert(s[s.len() - 1] != 0);
            assert(terminated(f) =~= s.push(0u8));
        }
    }
}

/// Moves the contents of a vector into a boxed slice (std's
/// `Vec::into_boxed_slice`); the elements and their order stay as they were.
#[verifier::external_body]
fn into_boxed<T>(v: Vec<T>) -> (b: Box<[T]>)
    ensures
        b@ == v@,
{
    v.into_boxed_slice()
}

/// Builds the request payload of `strings`: the UTF-8 bytes of each string
/// followed by a NUL, and one more NUL when there are two or more strings.
pub fn make_payload(strings: &[&str]) -> (payload: Box<[u8]>)
    ensures
        payload@ == payload_of(bytes_of_strs(strings@)),
{
    let ghost ss = bytes_of_strs(strings@);
    let mut payload: Vec<u8> = Vec::new();
    let mut i: usize = 0;
    while i < strings.len()
        invariant
            i <= strings@.len(),
            ss == bytes_of_strs(strings@),
            payload@ == terminated(ss.take(i as int)),
        decreases strings@.len() - i,
    {
        let bytes = strings[i].as_bytes();
        let ghost before = payload@;
        let mut j: usize = 0;
        while j < bytes.len()
            invariant
                j <= bytes@.len(),
                payload@ == before + bytes@.take(j as int),
            decreases bytes@.len() - j,
        {
            payload.push(bytes[j]);
            assert(bytes@.take(j + 1) =~= bytes@.take(j as int).push(bytes@[j as int]));
            j += 1;
        }
        payload.push(0u8);
        proof {
            assert(bytes@.take(j as int) =~= bytes@);
            assert(ss[i as int] == bytes@);
            lemma_terminated_push(ss.take(i as int), ss[i as int]);
            assert(ss.take(i as int).push(ss[i as int]) =~= ss.take(i + 1));
            assert(payload@ =~= terminated(ss.take(i as int)) + ss[i as int] + seq![0u8]);
        }
        i += 1;
    }
    if strings.len() > 1 {
        payload.push(0u8);
    }
    proof {
        assert(ss.take(strings@.len() as int) =~= ss);
    }
    into_boxed(payload)
}

/// The string of a one-string reply: `None` for an empty reply, else the
/// reply without its terminating NUL (when it ends with one).
pub fn parse_nul_string(buffer: &[u8]) -> (s: Option<&[u8]>)
    ensures
        buffer@.len() == 0 <==> s is None,
        s matches Some(t) ==> t@ == strip_nul(buffer@),
{
    if buffer.len() == 0 {
        None
    } else {
        let n = buffer.len();
        if buffer[n - 1] == 0 {
            let t = vstd::slice::slice_subrange(buffer, 0, n - 1);
            assert(t@ =~= buffer@.drop_last());
            Some(t)
        } else {
            Some(buffer)
        }
    }
}

/// The fields of a reply: each run of bytes that a NUL ends, and the trailing
/// run when the reply does not end with a NUL.
pub fn parse_nul_list(buffer: &[u8]) -> (fields: Box<[&[u8]]>)
    ensures
        fields@.map_values(|f: &[u8]| f@) == nul_fields(buffer@),
{
    let mut fields: Vec<&[u8]> = Vec::new();
    let mut start: usize = 0;
    let mut i: usize = 0;
    proof {
        assert(buffer@.skip(0) =~= buffer@);
        assert(fields@.map_values(|f: &[u8]| f@) + nul_fields(buffer@) =~= nul_fields(buffer@));
    }
    while i < buffer.len()
        invariant
            start <= i <= buffer@.len(),
            forall|k: int| start <= k < i ==> buffer@[k] != 0,
            fields@.map_values(|f: &[u8]| f@) + nul_fields(buffer@.skip(start as int)) == nul_fields(
                buffer@,
            ),
        decreases buffer@.len() - i,
    {
        if buffer[i] == 0 {
            let piece = vstd::slice::slice_subrange(buffer, start, i + 1);
            let ghost rest = buffer@.skip(start as int);
            proof {
                lemma_fields_split(rest, i - start);
                assert(rest.take(i - start) =~= buffer@.subrange(start as int, i as int));
                assert(rest.skip(i - start + 1) =~= buffer@.skip(i + 1));
                assert(piece@.drop_last() =~= buffer@.subrange(start as int, i as int));
            }
            let ghost old_fields = fields@;
            match parse_nul_string(piece) {
                Some(field) => {
                    fields.push(field);
                    assert(fields@.map_values(|f: &[u8]| f@) =~= old_fields.map_values(
                        |f: &[u8]| f@,
                    ).push(buffer@.subrange(start as int, i as int)));
                },
                None => {},
            }
            start = i + 1;
        }
        i += 1;
    }
    if start < buffer.len() {
        let piece = vstd::slice::slice_subrange(buffer, start, buffer.len());
        let ghost rest = buffer@.skip(start as int);
        proof {
            assert(piece@ =~= rest);
            lemma_nul_index_none(rest);
            assert(nul_fields(rest) == seq![rest]);
            assert(nul_fields(rest.skip(rest.len() as int)) =~= Seq::<Seq<u8>>::empty()) by {
                assert(rest.skip(rest.len() as int) =~= Seq::<u8>::empty());
            }
        }
        let ghost old_fields = fields@;
        match parse_nul_string(piece) {
            Some(field) => {
                fields.push(field);
                assert(fields@.map_values(|f: &[u8]| f@) =~= old_fields.map_values(|f: &[u8]| f@).push(
                    rest,
                ));
            },
            None => {},
        }
        assert(fields@.map_values(|f: &[u8]| f@) =~= nul_fields(buffer@));
    } else {
        assert(buffer@.skip(start as int) =~= Seq::<u8>::empty());
        assert(fields@.map_values(|f: &[u8]| f@) =~= nul_fields(buffer@));
    }
    into_boxed(fields)
}

} // verus!
