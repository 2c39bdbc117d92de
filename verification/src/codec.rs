//! The executable codec: serializers that produce exactly the wire form that
//! [`crate::wire`] describes, and deserializers proved to recover exactly what
//! the wire-level parser functions say a text stands for.

use vstd::prelude::*;
use vstd::string::StrSliceExecFns;
use vstd::string::StringExecFns;
use crate::messages::AeadConfig;
use crate::messages::CreateFileRequest;
use crate::messages::CreateFileResponse;
use crate::messages::DFSRequest;
use crate::messages::DFSResponse;
use crate::messages::DecodeError;
use crate::messages::DeleteFileRequest;
use crate::messages::DeleteFileResponse;
use crate::messages::FileInfo;
use crate::messages::GetFileRequest;
use crate::messages::GetFileResponse;
use crate::messages::ListFileRequest;
use crate::messages::ListFileResponse;
use crate::wire::dec_of;
use crate::wire::dec_val;
use crate::wire::digit_char;
use crate::wire::digit_run_end;
use crate::wire::digit_val;
use crate::wire::enc_aead;
use crate::wire::enc_bytes;
use crate::wire::enc_bytes_items;
use crate::wire::enc_create_req;
use crate::wire::enc_create_resp;
use crate::wire::enc_del_req;
use crate::wire::enc_del_resp;
use crate::wire::enc_file_info;
use crate::wire::enc_get_req;
use crate::wire::enc_get_resp;
use crate::wire::enc_items;
use crate::wire::enc_list;
use crate::wire::enc_list_req;
use crate::wire::enc_list_resp;
use crate::wire::enc_num;
use crate::wire::enc_request;
use crate::wire::enc_response;
use crate::wire::enc_str;
use crate::wire::is_digit;
use crate::wire::is_known_tag;
use crate::wire::lemma_bytes_items_bound;
use crate::wire::lemma_dec_val_mono;
use crate::wire::lemma_items_bound;
use crate::wire::lemma_digit_run_end;
use crate::wire::lemma_enc_bytes_items_snoc;
use crate::wire::lemma_enc_items_snoc;
use crate::wire::lemma_parse_request_sound;
use crate::wire::lemma_parse_response_sound;
use crate::wire::lemma_request_round_trip;
use crate::wire::lemma_response_round_trip;
use crate::wire::parse_aead_at;
use crate::wire::parse_bytes_at;
use crate::wire::parse_bytes_field_at;
use crate::wire::parse_bytes_items_at;
use crate::wire::parse_create_req_at;
use crate::wire::parse_create_resp_at;
use crate::wire::parse_dec_at;
use crate::wire::parse_del_req_at;
use crate::wire::parse_del_resp_at;
use crate::wire::parse_file_info_at;
use crate::wire::parse_get_req_at;
use crate::wire::parse_get_resp_at;
use crate::wire::parse_items_at;
use crate::wire::parse_list_at;
use crate::wire::parse_list_field_at;
use crate::wire::parse_list_req_at;
use crate::wire::parse_list_resp_at;
use crate::wire::parse_num_at;
use crate::wire::parse_request;
use crate::wire::parse_response;
use crate::wire::parse_str_at;
use crate::wire::parse_str_field_at;
use crate::wire::parse_u32_field_at;
use crate::wire::request_tag;
use crate::wire::response_tag;
use crate::wire::starts_with_at;
use crate::wire::wire_tag;

verus! {

// ---------------------------------------------------------------------------
// Serializing
// ---------------------------------------------------------------------------

fn emit_digit(out: &mut String, d: u64)
    requires
        d < 10,
    ensures
        final(out)@ == old(out)@ + seq![digit_char(d as nat)],
{
    if d == 0 {
        proof {
            reveal_strlit("0");
            assert("0"@ =~= seq![digit_char(0)]);
        }
        out.append("0");
    } else if d == 1 {
        proof {
            reveal_strlit("1");
            assert("1"@ =~= seq![digit_char(1)]);
        }
        out.append("1");
    } else if d == 2 {
        proof {
            reveal_strlit("2");
            assert("2"@ =~= seq![digit_char(2)]);
        }
        out.append("2");
    } else if d == 3 {
        proof {
            reveal_strlit("3");
            assert("3"@ =~= seq![digit_char(3)]);
        }
        out.append("3");
    } else if d == 4 {
        proof {
            reveal_strlit("4");
            assert("4"@ =~= seq![digit_char(4)]);
        }
        out.append("4");
    } else if d == 5 {
        proof {
            reveal_strlit("5");
            assert("5"@ =~= seq![digit_char(5)]);
        }
        out.append("5");
    } else if d == 6 {
        proof {
            reveal_strlit("6");
            assert("6"@ =~= seq![digit_char(6)]);
        }
        out.append("6");
    } else if d == 7 {
        proof {
            reveal_strlit("7");
            assert("7"@ =~= seq![digit_char(7)]);
        }
        out.append("7");
    } else if d == 8 {
        proof {
            reveal_strlit("8");
            assert("8"@ =~= seq![digit_char(8)]);
        }
        out.append("8");
    } else {
        proof {
            reveal_strlit("9");
            assert("9"@ =~= seq![digit_char(9)]);
        }
        out.append("9");
    }
}

fn emit_dec(out: &mut String, n: u64)
    ensures
        final(out)@ == old(out)@ + dec_of(n as nat),
    decreases n,
{
    if n < 10 {
        emit_digit(out, n);
    } else {
        emit_dec(out, n / 10);
        emit_digit(out, n % 10);
        proof {
            assert((n / 10) as nat == n as nat / 10);
            assert((n % 10) as nat == n as nat % 10);
            assert(old(out)@ + dec_of(n as nat / 10) + seq![digit_char(n as nat % 10)] =~= old(
                out,
            )@ + dec_of(n as nat));
        }
    }
}

fn emit_str(out: &mut String, x: &str)
    ensures
        final(out)@ == old(out)@ + enc_str(x@),
{
    let n = x.unicode_len();
    emit_dec(out, n as u64);
    proof {
        assert((n as u64) as nat == x@.len());
    }
    out.append(":");
    out.append(x);
    proof {
        reveal_strlit(":");
        assert(":"@ =~= seq![':']);
        assert(old(out)@ + dec_of(x@.len()) + ":"@ + x@ =~= old(out)@ + enc_str(x@));
    }
}

fn emit_num(out: &mut String, n: u64)
    ensures
        final(out)@ == old(out)@ + enc_num(n as nat),
{
    emit_dec(out, n);
    out.append(";");
    proof {
        reveal_strlit(";");
        assert(";"@ =~= seq![';']);
        assert(old(out)@ + dec_of(n as nat) + ";"@ =~= old(out)@ + enc_num(n as nat));
    }
}

fn emit_bytes(out: &mut String, b: &Vec<u8>)
    ensures
        final(out)@ == old(out)@ + enc_bytes(b@),
{
    emit_num(out, b.len() as u64);
    proof {
        assert((b.len() as u64) as nat == b@.len());
    }
    let ghost base = out@;
    let mut i: usize = 0;
    while i < b.len()
        invariant
            i <= b@.len(),
            base == old(out)@ + enc_num(b@.len()),
            out@ == base + enc_bytes_items(b@.take(i as int)),
        decreases b@.len() - i,
    {
        emit_num(out, b[i] as u64);
        proof {
            assert(b@.take(i + 1) =~= b@.take(i as int).push(b@[i as int]));
            lemma_enc_bytes_items_snoc(b@.take(i as int), b@[i as int]);
            assert(base + enc_bytes_items(b@.take(i as int)) + enc_num(b@[i as int] as nat) =~= base
                + enc_bytes_items(b@.take(i + 1)));
        }
        i += 1;
    }
    proof {
        assert(b@.take(b@.len() as int) =~= b@);
        assert(base + enc_bytes_items(b@) =~= old(out)@ + enc_bytes(b@));
    }
}

fn emit_list(out: &mut String, l: &Vec<String>)
    ensures
        final(out)@ == old(out)@ + enc_list(l.deep_view()),
{
    let ghost dv = l.deep_view();
    proof {
        assert(dv.len() == l@.len());
    }
    emit_num(out, l.len() as u64);
    proof {
        assert((l.len() as u64) as nat == dv.len());
    }
    let ghost base = out@;
    let mut i: usize = 0;
    while i < l.len()
        invariant
            i <= l@.len(),
            dv == l.deep_view(),
            dv.len() == l@.len(),
            base == old(out)@ + enc_num(dv.len()),
            out@ == base + enc_items(dv.take(i as int)),
        decreases l@.len() - i,
    {
        emit_str(out, l[i].as_str());
        proof {
            assert(dv[i as int] == l@[i as int]@);
            assert(dv.take(i + 1) =~= dv.take(i as int).push(dv[i as int]));
            lemma_enc_items_snoc(dv.take(i as int), dv[i as int]);
            assert(base + enc_items(dv.take(i as int)) + enc_str(dv[i as int]) =~= base + enc_items(
                dv.take(i + 1),
            ));
        }
        i += 1;
    }
    proof {
        assert(dv.take(dv.len() as int) =~= dv);
        assert(base + enc_items(dv) =~= old(out)@ + enc_list(dv));
    }
}

fn emit_aead(out: &mut String, a: &AeadConfig)
    ensures
        final(out)@ == old(out)@ + enc_aead(a@),
{
    out.append("{");
    out.append("key:");
    emit_bytes(out, &a.key);
    out.append("nonce:");
    emit_bytes(out, &a.nonce);
    out.append("ad:");
    emit_bytes(out, &a.ad);
    out.append("}");
    proof {
        reveal_strlit("{");
        reveal_strlit("}");
        assert("{"@ =~= seq!['{']);
        assert("}"@ =~= seq!['}']);
        assert(old(out)@ + "{"@ + "key:"@ + enc_bytes(a.key@) + "nonce:"@ + enc_bytes(a.nonce@)
            + "ad:"@ + enc_bytes(a.ad@) + "}"@ =~= old(out)@ + enc_aead(a@));
    }
}

#[verifier::rlimit(60)]
fn emit_file_info(out: &mut String, f: &FileInfo)
    ensures
        final(out)@ == old(out)@ + enc_file_info(f@),
{
    out.append("{");
    out.append("user_id:");
    emit_str(out, f.user_id.as_str());
    out.append("file_name:");
    emit_str(out, f.file_name.as_str());
    out.append("sha256:");
    emit_str(out, f.sha256.as_str());
    out.append("file_size:");
    emit_num(out, f.file_size as u64);
    out.append("access_path:");
    emit_str(out, f.access_path.as_str());
    match &f.task_id {
        Some(t) => {
            out.append("task_id:");
            emit_str(out, t.as_str());
        },
        None => {},
    }
    out.append("collaborator_list:");
    emit_list(out, &f.collaborator_list);
    out.append("key_config:");
    emit_aead(out, &f.key_config);
    out.append("}");
    proof {
        reveal_strlit("{");
        reveal_strlit("}");
        assert("{"@ =~= seq!['{']);
        assert("}"@ =~= seq!['}']);
        assert((f.file_size as u64) as nat == f.file_size as nat);
        assert(out@ =~= old(out)@ + enc_file_info(f@));
    }
}

fn emit_create_req(out: &mut String, p: &CreateFileRequest)
    ensures
        final(out)@ == old(out)@ + enc_create_req(p@),
{
    out.append("file_name:");
    emit_str(out, p.file_name.as_str());
    out.append("sha256:");
    emit_str(out, p.sha256.as_str());
    out.append("file_size:");
    emit_num(out, p.file_size as u64);
    out.append("user_id:");
    emit_str(out, p.user_id.as_str());
    out.append("user_token:");
    emit_str(out, p.user_token.as_str());
    proof {
        assert((p.file_size as u64) as nat == p.file_size as nat);
        assert(out@ =~= old(out)@ + enc_create_req(p@));
    }
}

fn emit_get_req(out: &mut String, p: &GetFileRequest)
    ensures
        final(out)@ == old(out)@ + enc_get_req(p@),
{
    out.append("file_id:");
    emit_str(out, p.file_id.as_str());
    out.append("user_id:");
    emit_str(out, p.user_id.as_str());
    out.append("user_token:");
    emit_str(out, p.user_token.as_str());
    proof {
        assert(out@ =~= old(out)@ + enc_get_req(p@));
    }
}

fn emit_del_req(out: &mut String, p: &DeleteFileRequest)
    ensures
        final(out)@ == old(out)@ + enc_del_req(p@),
{
    out.append("file_id:");
    emit_str(out, p.file_id.as_str());
    out.append("user_id:");
    emit_str(out, p.user_id.as_str());
    out.append("user_token:");
    emit_str(out, p.user_token.as_str());
    proof {
        assert(out@ =~= old(out)@ + enc_del_req(p@));
    }
}

fn emit_list_req(out: &mut String, p: &ListFileRequest)
    ensures
        final(out)@ == old(out)@ + enc_list_req(p@),
{
    out.append("user_id:");
    emit_str(out, p.user_id.as_str());
    out.append("user_token:");
    emit_str(out, p.user_token.as_str());
    proof {
        assert(out@ =~= old(out)@ + enc_list_req(p@));
    }
}

fn emit_create_resp(out: &mut String, p: &CreateFileResponse)
    ensures
        final(out)@ == old(out)@ + enc_create_resp(p@),
{
    out.append("file_id:");
    emit_str(out, p.file_id.as_str());
    out.append("access_path:");
    emit_str(out, p.access_path.as_str());
    out.append("key_config:");
    emit_aead(out, &p.key_config);
    proof {
        assert(out@ =~= old(out)@ + enc_create_resp(p@));
    }
}

fn emit_get_resp(out: &mut String, p: &GetFileResponse)
    ensures
        final(out)@ == old(out)@ + enc_get_resp(p@),
{
    out.append("file_info:");
    emit_file_info(out, &p.file_info);
    proof {
        assert(out@ =~= old(out)@ + enc_get_resp(p@));
    }
}

fn emit_del_resp(out: &mut String, p: &DeleteFileResponse)
    ensures
        final(out)@ == old(out)@ + enc_del_resp(p@),
{
    out.append("file_info:");
    emit_file_info(out, &p.file_info);
    proof {
        assert(out@ =~= old(out)@ + enc_del_resp(p@));
    }
}

fn emit_list_resp(out: &mut String, p: &ListFileResponse)
    ensures
        final(out)@ == old(out)@ + enc_list_resp(p@),
{
    out.append("list:");
    emit_list(out, &p.list);
    proof {
        assert(out@ =~= old(out)@ + enc_list_resp(p@));
    }
}

/// Writes a request in the protocol's wire form. The text is exactly the
/// encoding [`enc_request`] gives the request's value, so it carries the
/// variant's name as its tag, and decoding it yields the request back.
pub fn serialize_request(req: &DFSRequest) -> (r: String)
    ensures
        r@ == enc_request(req@),
        wire_tag(r@) == Some(request_tag(req@)),
        parse_request(r@) == Some(req@),
{
    let mut out = String::new();
    out.append("{");
    out.append("type:");
    match req {
        DFSRequest::Create(p) => {
            emit_str(&mut out, "Create");
            emit_create_req(&mut out, p);
        },
        DFSRequest::Get(p) => {
            emit_str(&mut out, "Get");
            emit_get_req(&mut out, p);
        },
        DFSRequest::List(p) => {
            emit_str(&mut out, "List");
            emit_list_req(&mut out, p);
        },
        DFSRequest::Delete(p) => {
            emit_str(&mut out, "Delete");
            emit_del_req(&mut out, p);
        },
    }
    out.append("}");
    proof {
        reveal_strlit("{");
        reveal_strlit("}");
        assert("{"@ =~= seq!['{']);
        assert("}"@ =~= seq!['}']);
        assert(out@ =~= enc_request(req@));
        lemma_request_round_trip(req@);
    }
    out
}

/// Writes a response in the protocol's wire form, with the same guarantees as
/// [`serialize_request`].
pub fn serialize_response(resp: &DFSResponse) -> (r: String)
    ensures
        r@ == enc_response(resp@),
        wire_tag(r@) == Some(response_tag(resp@)),
        parse_response(r@) == Some(resp@),
{
    let mut out = String::new();
    out.append("{");
    out.append("type:");
    match resp {
        DFSResponse::Create(p) => {
            emit_str(&mut out, "Create");
            emit_create_resp(&mut out, p);
        },
        DFSResponse::Get(p) => {
            emit_str(&mut out, "Get");
            emit_get_resp(&mut out, p);
        },
        DFSResponse::List(p) => {
            emit_str(&mut out, "List");
            emit_list_resp(&mut out, p);
        },
        DFSResponse::Delete(p) => {
            emit_str(&mut out, "Delete");
            emit_del_resp(&mut out, p);
        },
    }
    out.append("}");
    proof {
        reveal_strlit("{");
        reveal_strlit("}");
        assert("{"@ =~= seq!['{']);
        assert("}"@ =~= seq!['}']);
        assert(out@ =~= enc_response(resp@));
        lemma_response_round_trip(resp@);
    }
    out
}

// ---------------------------------------------------------------------------
// Deserializing
// ---------------------------------------------------------------------------

fn digit_value(c: char) -> (r: Option<u64>)
    ensures
        r matches Some(d) ==> is_digit(c) && d < 10 && d as nat == digit_val(c),
        r is None ==> !is_digit(c),
{
    match c {
        '0' => Some(0),
        '1' => Some(1),
        '2' => Some(2),
        '3' => Some(3),
        '4' => Some(4),
        '5' => Some(5),
        '6' => Some(6),
        '7' => Some(7),
        '8' => Some(8),
        '9' => Some(9),
        _ => None,
    }
}

/// Reads the decimal numeral at `pos`. An `Err` means there is none there, or
/// its value does not even fit 64 bits.
fn scan_dec(s: &str, len: usize, pos: usize) -> (r: Result<(u64, usize), DecodeError>)
    requires
        len == s@.len(),
        pos <= len,
    ensures
        r matches Ok(p) ==> parse_dec_at(s@, pos as int) == Some((p.0 as nat, p.1 as int)) && pos
            < p.1 <= len,
        r is Err ==> (parse_dec_at(s@, pos as int) is None || parse_dec_at(
            s@,
            pos as int,
        )->Some_0.0 > u64::MAX),
{
    proof {
        lemma_digit_run_end(s@, pos as int);
    }
    let ghost e = digit_run_end(s@, pos as int);
    if pos == len {
        return Err(DecodeError::Truncated);
    }
    let c0 = s.get_char(pos);
    if digit_value(c0).is_none() {
        return Err(DecodeError::Malformed);
    }
    proof {
        assert(e > pos);
    }
    if c0 == '0' && pos + 1 < len {
        if digit_value(s.get_char(pos + 1)).is_some() {
            proof {
                assert(e >= pos + 2);
            }
            return Err(DecodeError::Malformed);
        }
    }
    proof {
        if s@[pos as int] == '0' {
            assert(e == pos + 1);
        }
    }
    let mut end: usize = pos;
    let mut acc: u64 = 0;
    while end < len && digit_value(s.get_char(end)).is_some()
        invariant
            len == s@.len(),
            pos < len,
            e == digit_run_end(s@, pos as int),
            pos < e <= len,
            pos <= end <= e,
            s@[pos as int] == '0' ==> e == pos + 1,
            acc == dec_val(s@.subrange(pos as int, end as int)),
        decreases len - end,
    {
        proof {
            lemma_digit_run_end(s@, pos as int);
            assert(end < e);
        }
        let d = match digit_value(s.get_char(end)) {
            Some(d) => d,
            None => {
                proof {
                    assert(false);
                }
                return Err(DecodeError::Malformed);
            },
        };
        let ghost pre = s@.subrange(pos as int, end as int);
        let ghost ext = s@.subrange(pos as int, end + 1 as int);
        proof {
            assert(ext.drop_last() =~= pre);
            assert(ext.last() == s@[end as int]);
            assert(dec_val(ext) == dec_val(pre) * 10 + digit_val(s@[end as int]));
        }
        let step = match acc.checked_mul(10) {
            Some(v) => v.checked_add(d),
            None => None,
        };
        acc = match step {
            Some(v) => v,
            None => {
                proof {
                    let whole = s@.subrange(pos as int, e as int);
                    lemma_dec_val_mono(whole, end + 1 - pos as int);
                    assert(whole.take(end + 1 - pos as int) =~= ext);
                    assert(dec_val(ext) > u64::MAX);
                    assert(parse_dec_at(s@, pos as int) == Some((dec_val(whole), e)));
                    assert(dec_val(whole) >= dec_val(ext));
                }
                return Err(DecodeError::Overflow);
            },
        };
        end = end + 1;
    }
    proof {
        lemma_digit_run_end(s@, pos as int);
        assert(end == e);
        assert(parse_dec_at(s@, pos as int) == Some((dec_val(
            s@.subrange(pos as int, e as int),
        ), e)));
    }
    Ok((acc, end))
}

/// Reads the string value at `pos`: its character count, a colon, and that
/// many characters.
fn parse_str_val(s: &str, len: usize, pos: usize) -> (r: Result<(String, usize), DecodeError>)
    requires
        len == s@.len(),
        pos <= len,
    ensures
        r matches Ok(p) ==> parse_str_at(s@, pos as int) == Some((p.0@, p.1 as int)) && pos < p.1
            <= len,
        r is Err ==> parse_str_at(s@, pos as int) is None,
{
    let (n, j) = match scan_dec(s, len, pos) {
        Ok(p) => p,
        Err(er) => {
            proof {
                let ghost pd = parse_dec_at(s@, pos as int);
                if pd is Some {
                    lemma_digit_run_end(s@, pos as int);
                    assert(pd->Some_0.0 > u64::MAX);
                    assert(pd->Some_0.1 >= pos >= 0);
                    assert(s@.len() <= usize::MAX);
                    assert(pd->Some_0.1 + 1 + pd->Some_0.0 > s@.len());
                }
            }
            return Err(er);
        },
    };
    if j == len {
        return Err(DecodeError::Truncated);
    }
    if s.get_char(j) != ':' {
        return Err(DecodeError::Malformed);
    }
    let rem = len - j - 1;
    if n > rem as u64 {
        return Err(DecodeError::Truncated);
    }
    let n_us = n as usize;
    proof {
        assert(n_us as nat == n as nat);
    }
    let t = s.substring_char(j + 1, j + 1 + n_us);
    Ok((t.to_owned(), j + 1 + n_us))
}

/// Reads the numeric value at `pos`: a numeral closed by a semicolon. An
/// `Err` covers the value not fitting 64 bits.
fn parse_num_val(s: &str, len: usize, pos: usize) -> (r: Result<(u64, usize), DecodeError>)
    requires
        len == s@.len(),
        pos <= len,
    ensures
        r matches Ok(p) ==> parse_num_at(s@, pos as int) == Some((p.0 as nat, p.1 as int)) && pos
            < p.1 <= len,
        r is Err ==> (parse_num_at(s@, pos as int) is None || parse_num_at(
            s@,
            pos as int,
        )->Some_0.0 > u64::MAX),
{
    let (n, j) = match scan_dec(s, len, pos) {
        Ok(p) => p,
        Err(er) => {
            return Err(er);
        },
    };
    if j == len {
        return Err(DecodeError::Truncated);
    }
    if s.get_char(j) != ';' {
        return Err(DecodeError::Malformed);
    }
    Ok((n, j + 1))
}

/// Checks that `lit` stands verbatim at `pos`.
fn expect_lit(s: &str, len: usize, pos: usize, lit: &str) -> (r: Option<usize>)
    requires
        len == s@.len(),
        pos <= len,
    ensures
        r matches Some(e) ==> starts_with_at(s@, pos as int, lit@) && e == pos + lit@.len() && pos
            <= e <= len,
        r is None ==> !starts_with_at(s@, pos as int, lit@),
{
    let ll = lit.unicode_len();
    if ll > len - pos {
        return None;
    }
    let mut k: usize = 0;
    while k < ll
        invariant
            len == s@.len(),
            ll == lit@.len(),
            pos + ll <= len,
            k <= ll,
            forall|m: int| 0 <= m < k ==> s@[pos + m] == lit@[m],
        decreases ll - k,
    {
        if s.get_char(pos + k) != lit.get_char(k) {
            proof {
                if starts_with_at(s@, pos as int, lit@) {
                    assert(s@.subrange(pos as int, pos + lit@.len())[k as int] == lit@[k as int]);
                }
            }
            return None;
        }
        k += 1;
    }
    proof {
        assert(s@.subrange(pos as int, pos + lit@.len()) =~= lit@);
    }
    Some(pos + ll)
}

/// Reads `key` and the string value after it.
fn parse_str_field(s: &str, len: usize, pos: usize, key: &str) -> (r: Result<
    (String, usize),
    DecodeError,
>)
    requires
        len == s@.len(),
        pos <= len,
    ensures
        r matches Ok(p) ==> parse_str_field_at(s@, pos as int, key@) == Some((p.0@, p.1 as int))
            && pos < p.1 <= len,
        r is Err ==> parse_str_field_at(s@, pos as int, key@) is None,
{
    match expect_lit(s, len, pos, key) {
        None => Err(DecodeError::Malformed),
        Some(j) => parse_str_val(s, len, j),
    }
}

/// Reads `key` and the 32-bit count after it.
fn parse_u32_field(s: &str, len: usize, pos: usize, key: &str) -> (r: Result<
    (u32, usize),
    DecodeError,
>)
    requires
        len == s@.len(),
        pos <= len,
    ensures
        r matches Ok(p) ==> parse_u32_field_at(s@, pos as int, key@) == Some((p.0, p.1 as int))
            && pos < p.1 <= len,
        r is Err ==> parse_u32_field_at(s@, pos as int, key@) is None,
{
    let j = match expect_lit(s, len, pos, key) {
        None => {
            return Err(DecodeError::Malformed);
        },
        Some(j) => j,
    };
    let (n, e) = match parse_num_val(s, len, j) {
        Ok(p) => p,
        Err(er) => {
            return Err(er);
        },
    };
    if n > u32::MAX as u64 {
        return Err(DecodeError::Overflow);
    }
    Ok((n as u32, e))
}

/// Reads a byte-string value: a count, then that many numeric byte values.
fn parse_bytes_val(s: &str, len: usize, pos: usize) -> (r: Result<(Vec<u8>, usize), DecodeError>)
    requires
        len == s@.len(),
        pos <= len,
    ensures
        r matches Ok(p) ==> parse_bytes_at(s@, pos as int) == Some((p.0@, p.1 as int)) && pos < p.1
            <= len,
        r is Err ==> parse_bytes_at(s@, pos as int) is None,
{
    let (n, j) = match parse_num_val(s, len, pos) {
        Ok(p) => p,
        Err(er) => {
            proof {
                let ghost pn = parse_num_at(s@, pos as int);
                if pn is Some {
                    assert(pn->Some_0.0 > u64::MAX);
                    if parse_bytes_items_at(s@, pn->Some_0.1, pn->Some_0.0) is Some {
                        lemma_bytes_items_bound(s@, pn->Some_0.1, pn->Some_0.0);
                        assert(s@.len() <= usize::MAX);
                        assert(false);
                    }
                }
            }
            return Err(er);
        },
    };
    let mut acc: Vec<u8> = Vec::new();
    let mut cur: usize = j;
    let mut k: u64 = 0;
    while k < n
        invariant
            len == s@.len(),
            j <= cur <= len,
            k <= n,
            parse_num_at(s@, pos as int) == Some((n as nat, j as int)),
            parse_bytes_items_at(s@, j as int, n as nat) == (match parse_bytes_items_at(
                s@,
                cur as int,
                (n - k) as nat,
            ) {
                None => None::<(Seq<u8>, int)>,
                Some((b2, e2)) => Some((acc@ + b2, e2)),
            }),
        decreases n - k,
    {
        let (v, j2) = match parse_num_val(s, len, cur) {
            Ok(p) => p,
            Err(er) => {
                return Err(er);
            },
        };
        if v > 255 {
            return Err(DecodeError::Overflow);
        }
        let ghost before = acc@;
        acc.push(v as u8);
        proof {
            assert(acc@ =~= before.push(v as u8));
            assert(before + (seq![v as u8] + parse_bytes_items_at(
                s@,
                j2 as int,
                (n - k - 1) as nat,
            )->Some_0.0) =~= acc@ + parse_bytes_items_at(
                s@,
                j2 as int,
                (n - k - 1) as nat,
            )->Some_0.0);
        }
        cur = j2;
        k = k + 1;
    }
    proof {
        assert(acc@ + Seq::<u8>::empty() =~= acc@);
    }
    Ok((acc, cur))
}

/// Reads `key` and the byte-string value after it.
fn parse_bytes_field(s: &str, len: usize, pos: usize, key: &str) -> (r: Result<
    (Vec<u8>, usize),
    DecodeError,
>)
    requires
        len == s@.len(),
        pos <= len,
    ensures
        r matches Ok(p) ==> parse_bytes_field_at(s@, pos as int, key@) == Some((p.0@, p.1 as int))
            && pos < p.1 <= len,
        r is Err ==> parse_bytes_field_at(s@, pos as int, key@) is None,
{
    match expect_lit(s, len, pos, key) {
        None => Err(DecodeError::Malformed),
        Some(j) => parse_bytes_val(s, len, j),
    }
}

/// Reads a list value: a count, then that many string values.
fn parse_list_val(s: &str, len: usize, pos: usize) -> (r: Result<
    (Vec<String>, usize),
    DecodeError,
>)
    requires
        len == s@.len(),
        pos <= len,
    ensures
        r matches Ok(p) ==> parse_list_at(s@, pos as int) == Some((p.0.deep_view(), p.1 as int))
            && pos < p.1 <= len,
        r is Err ==> parse_list_at(s@, pos as int) is None,
{
    let (n, j) = match parse_num_val(s, len, pos) {
        Ok(p) => p,
        Err(er) => {
            proof {
                let ghost pn = parse_num_at(s@, pos as int);
                if pn is Some {
                    assert(pn->Some_0.0 > u64::MAX);
                    if parse_items_at(s@, pn->Some_0.1, pn->Some_0.0) is Some {
                        lemma_items_bound(s@, pn->Some_0.1, pn->Some_0.0);
                        assert(s@.len() <= usize::MAX);
                        assert(false);
                    }
                }
            }
            return Err(er);
        },
    };
    let mut acc: Vec<String> = Vec::new();
    let mut cur: usize = j;
    let mut k: u64 = 0;
    while k < n
        invariant
            len == s@.len(),
            j <= cur <= len,
            k <= n,
            parse_num_at(s@, pos as int) == Some((n as nat, j as int)),
            parse_items_at(s@, j as int, n as nat) == (match parse_items_at(
                s@,
                cur as int,
                (n - k) as nat,
            ) {
                None => None::<(Seq<Seq<char>>, int)>,
                Some((l2, e2)) => Some((acc.deep_view() + l2, e2)),
            }),
        decreases n - k,
    {
        let (x, j2) = match parse_str_val(s, len, cur) {
            Ok(p) => p,
            Err(er) => {
                return Err(er);
            },
        };
        let ghost before = acc.deep_view();
        acc.push(x);
        proof {
            assert(acc.deep_view() =~= before.push(acc@[acc@.len() - 1]@));
            assert(before + (seq![acc@[acc@.len() - 1]@] + parse_items_at(
                s@,
                j2 as int,
                (n - k - 1) as nat,
            )->Some_0.0) =~= acc.deep_view() + parse_items_at(
                s@,
                j2 as int,
                (n - k - 1) as nat,
            )->Some_0.0);
        }
        cur = j2;
        k = k + 1;
    }
    proof {
        assert(acc.deep_view() + Seq::<Seq<char>>::empty() =~= acc.deep_view());
    }
    Ok((acc, cur))
}

/// Reads `key` and the list value after it.
fn parse_list_field(s: &str, len: usize, pos: usize, key: &str) -> (r: Result<
    (Vec<String>, usize),
    DecodeError,
>)
    requires
        len == s@.len(),
        pos <= len,
    ensures
        r matches Ok(p) ==> parse_list_field_at(s@, pos as int, key@) == Some(
            (p.0.deep_view(), p.1 as int),
        ) && pos < p.1 <= len,
        r is Err ==> parse_list_field_at(s@, pos as int, key@) is None,
{
    match expect_lit(s, len, pos, key) {
        None => Err(DecodeError::Malformed),
        Some(j) => parse_list_val(s, len, j),
    }
}

/// Reads an encryption-configuration object.
fn parse_aead(s: &str, len: usize, pos: usize) -> (r: Result<(AeadConfig, usize), DecodeError>)
    requires
        len == s@.len(),
        pos <= len,
    ensures
        r matches Ok(p) ==> parse_aead_at(s@, pos as int) == Some((p.0@, p.1 as int)) && pos < p.1
            <= len,
        r is Err ==> parse_aead_at(s@, pos as int) is None,
{
    if pos == len {
        return Err(DecodeError::Truncated);
    }
    if s.get_char(pos) != '{' {
        return Err(DecodeError::Malformed);
    }
    let (key, i1) = match parse_bytes_field(s, len, pos + 1, "key:") {
        Ok(p) => p,
        Err(er) => {
            return Err(er);
        },
    };
    let (nonce, i2) = match parse_bytes_field(s, len, i1, "nonce:") {
        Ok(p) => p,
        Err(er) => {
            return Err(er);
        },
    };
    let (ad, i3) = match parse_bytes_field(s, len, i2, "ad:") {
        Ok(p) => p,
        Err(er) => {
            return Err(er);
        },
    };
    if i3 == len {
        return Err(DecodeError::Truncated);
    }
    if s.get_char(i3) != '}' {
        return Err(DecodeError::Malformed);
    }
    Ok((AeadConfig { key, nonce, ad }, i3 + 1))
}

/// Reads a file-record object.
#[verifier::rlimit(60)]
fn parse_file_info(s: &str, len: usize, pos: usize) -> (r: Result<(FileInfo, usize), DecodeError>)
    requires
        len == s@.len(),
        pos <= len,
    ensures
        r matches Ok(p) ==> parse_file_info_at(s@, pos as int) == Some((p.0@, p.1 as int)) && pos
            < p.1 <= len,
        r is Err ==> parse_file_info_at(s@, pos as int) is None,
{
    if pos == len {
        return Err(DecodeError::Truncated);
    }
    if s.get_char(pos) != '{' {
        return Err(DecodeError::Malformed);
    }
    let (user_id, i1) = match parse_str_field(s, len, pos + 1, "user_id:") {
        Ok(p) => p,
        Err(er) => {
            return Err(er);
        },
    };
    let (file_name, i2) = match parse_str_field(s, len, i1, "file_name:") {
        Ok(p) => p,
        Err(er) => {
            return Err(er);
        },
    };
    let (sha256, i3) = match parse_str_field(s, len, i2, "sha256:") {
        Ok(p) => p,
        Err(er) => {
            return Err(er);
        },
    };
    let (file_size, i4) = match parse_u32_field(s, len, i3, "file_size:") {
        Ok(p) => p,
        Err(er) => {
            return Err(er);
        },
    };
    let (access_path, i5) = match parse_str_field(s, len, i4, "access_path:") {
        Ok(p) => p,
        Err(er) => {
            return Err(er);
        },
    };
    let (task_id, i6) = if i5 < len && s.get_char(i5) == 't' {
        match parse_str_field(s, len, i5, "task_id:") {
            Ok(p) => (Some(p.0), p.1),
            Err(er) => {
                return Err(er);
            },
        }
    } else {
        (None, i5)
    };
    let (collaborator_list, i7) = match parse_list_field(s, len, i6, "collaborator_list:") {
        Ok(p) => p,
        Err(er) => {
            return Err(er);
        },
    };
    let i7k = match expect_lit(s, len, i7, "key_config:") {
        None => {
            return Err(DecodeError::Malformed);
        },
        Some(j) => j,
    };
    let (key_config, i8) = match parse_aead(s, len, i7k) {
        Ok(p) => p,
        Err(er) => {
            return Err(er);
        },
    };
    if i8 == len {
        return Err(DecodeError::Truncated);
    }
    if s.get_char(i8) != '}' {
        return Err(DecodeError::Malformed);
    }
    let info = FileInfo {
        user_id,
        file_name,
        sha256,
        file_size,
        access_path,
        task_id,
        collaborator_list,
        key_config,
    };
    Ok((info, i8 + 1))
}

/// Reads the payload fields of a create request.
fn parse_create_req(s: &str, len: usize, pos: usize) -> (r: Result<
    (CreateFileRequest, usize),
    DecodeError,
>)
    requires
        len == s@.len(),
        pos <= len,
    ensures
        r matches Ok(p) ==> parse_create_req_at(s@, pos as int) == Some((p.0@, p.1 as int)) && pos
            < p.1 <= len,
        r is Err ==> parse_create_req_at(s@, pos as int) is None,
{
    let (file_name, i1) = match parse_str_field(s, len, pos, "file_name:") {
        Ok(p) => p,
        Err(er) => {
            return Err(er);
        },
    };
    let (sha256, i2) = match parse_str_field(s, len, i1, "sha256:") {
        Ok(p) => p,
        Err(er) => {
            return Err(er);
        },
    };
    let (file_size, i3) = match parse_u32_field(s, len, i2, "file_size:") {
        Ok(p) => p,
        Err(er) => {
            return Err(er);
        },
    };
    let (user_id, i4) = match parse_str_field(s, len, i3, "user_id:") {
        Ok(p) => p,
        Err(er) => {
            return Err(er);
        },
    };
    let (user_token, i5) = match parse_str_field(s, len, i4, "user_token:") {
        Ok(p) => p,
        Err(er) => {
            return Err(er);
        },
    };
    Ok((CreateFileRequest { file_name, sha256, file_size, user_id, user_token }, i5))
}

/// Reads the payload fields of a get request.
fn parse_get_req(s: &str, len: usize, pos: usize) -> (r: Result<
    (GetFileRequest, usize),
    DecodeError,
>)
    requires
        len == s@.len(),
        pos <= len,
    ensures
        r matches Ok(p) ==> parse_get_req_at(s@, pos as int) == Some((p.0@, p.1 as int)) && pos
            < p.1 <= len,
        r is Err ==> parse_get_req_at(s@, pos as int) is None,
{
    let (file_id, i1) = match parse_str_field(s, len, pos, "file_id:") {
        Ok(p) => p,
        Err(er) => {
            return Err(er);
        },
    };
    let (user_id, i2) = match parse_str_field(s, len, i1, "user_id:") {
        Ok(p) => p,
        Err(er) => {
            return Err(er);
        },
    };
    let (user_token, i3) = match parse_str_field(s, len, i2, "user_token:") {
        Ok(p) => p,
        Err(er) => {
            return Err(er);
        },
    };
    Ok((GetFileRequest { file_id, user_id, user_token }, i3))
}

/// Reads the payload fields of a delete request.
fn parse_del_req(s: &str, len: usize, pos: usize) -> (r: Result<
    (DeleteFileRequest, usize),
    DecodeError,
>)
    requires
        len == s@.len(),
        pos <= len,
    ensures
        r matches Ok(p) ==> parse_del_req_at(s@, pos as int) == Some((p.0@, p.1 as int)) && pos
            < p.1 <= len,
        r is Err ==> parse_del_req_at(s@, pos as int) is None,
{
    let (file_id, i1) = match parse_str_field(s, len, pos, "file_id:") {
        Ok(p) => p,
        Err(er) => {
            return Err(er);
        },
    };
    let (user_id, i2) = match parse_str_field(s, len, i1, "user_id:") {
        Ok(p) => p,
        Err(er) => {
            return Err(er);
        },
    };
    let (user_token, i3) = match parse_str_field(s, len, i2, "user_token:") {
        Ok(p) => p,
        Err(er) => {
            return Err(er);
        },
    };
    Ok((DeleteFileRequest { file_id, user_id, user_token }, i3))
}

/// Reads the payload fields of a list request.
fn parse_list_req(s: &str, len: usize, pos: usize) -> (r: Result<
    (ListFileRequest, usize),
    DecodeError,
>)
    requires
        len == s@.len(),
        pos <= len,
    ensures
        r matches Ok(p) ==> parse_list_req_at(s@, pos as int) == Some((p.0@, p.1 as int)) && pos
            < p.1 <= len,
        r is Err ==> parse_list_req_at(s@, pos as int) is None,
{
    let (user_id, i1) = match parse_str_field(s, len, pos, "user_id:") {
        Ok(p) => p,
        Err(er) => {
            return Err(er);
        },
    };
    let (user_token, i2) = match parse_str_field(s, len, i1, "user_token:") {
        Ok(p) => p,
        Err(er) => {
            return Err(er);
        },
    };
    Ok((ListFileRequest { user_id, user_token }, i2))
}

/// Reads the payload fields of a create response.
fn parse_create_resp(s: &str, len: usize, pos: usize) -> (r: Result<
    (CreateFileResponse, usize),
    DecodeError,
>)
    requires
        len == s@.len(),
        pos <= len,
    ensures
        r matches Ok(p) ==> parse_create_resp_at(s@, pos as int) == Some((p.0@, p.1 as int)) && pos
            < p.1 <= len,
        r is Err ==> parse_create_resp_at(s@, pos as int) is None,
{
    let (file_id, i1) = match parse_str_field(s, len, pos, "file_id:") {
        Ok(p) => p,
        Err(er) => {
            return Err(er);
        },
    };
    let (access_path, i2) = match parse_str_field(s, len, i1, "access_path:") {
        Ok(p) => p,
        Err(er) => {
            return Err(er);
        },
    };
    let i2k = match expect_lit(s, len, i2, "key_config:") {
        None => {
            return Err(DecodeError::Malformed);
        },
        Some(j) => j,
    };
    let (key_config, i3) = match parse_aead(s, len, i2k) {
        Ok(p) => p,
        Err(er) => {
            return Err(er);
        },
    };
    Ok((CreateFileResponse { file_id, access_path, key_config }, i3))
}

/// Reads the payload field of a get response.
fn parse_get_resp(s: &str, len: usize, pos: usize) -> (r: Result<
    (GetFileResponse, usize),
    DecodeError,
>)
    requires
        len == s@.len(),
        pos <= len,
    ensures
        r matches Ok(p) ==> parse_get_resp_at(s@, pos as int) == Some((p.0@, p.1 as int)) && pos
            < p.1 <= len,
        r is Err ==> parse_get_resp_at(s@, pos as int) is None,
{
    let j = match expect_lit(s, len, pos, "file_info:") {
        None => {
            return Err(DecodeError::Malformed);
        },
        Some(j) => j,
    };
    let (file_info, i1) = match parse_file_info(s, len, j) {
        Ok(p) => p,
        Err(er) => {
            return Err(er);
        },
    };
    Ok((GetFileResponse { file_info }, i1))
}

/// Reads the payload field of a delete response.
fn parse_del_resp(s: &str, len: usize, pos: usize) -> (r: Result<
    (DeleteFileResponse, usize),
    DecodeError,
>)
    requires
        len == s@.len(),
        pos <= len,
    ensures
        r matches Ok(p) ==> parse_del_resp_at(s@, pos as int) == Some((p.0@, p.1 as int)) && pos
            < p.1 <= len,
        r is Err ==> parse_del_resp_at(s@, pos as int) is None,
{
    let j = match expect_lit(s, len, pos, "file_info:") {
        None => {
            return Err(DecodeError::Malformed);
        },
        Some(j) => j,
    };
    let (file_info, i1) = match parse_file_info(s, len, j) {
        Ok(p) => p,
        Err(er) => {
            return Err(er);
        },
    };
    Ok((DeleteFileResponse { file_info }, i1))
}

/// Reads the payload field of a list response.
fn parse_list_resp(s: &str, len: usize, pos: usize) -> (r: Result<
    (ListFileResponse, usize),
    DecodeError,
>)
    requires
        len == s@.len(),
        pos <= len,
    ensures
        r matches Ok(p) ==> parse_list_resp_at(s@, pos as int) == Some((p.0@, p.1 as int)) && pos
            < p.1 <= len,
        r is Err ==> parse_list_resp_at(s@, pos as int) is None,
{
    let (list, i1) = match parse_list_field(s, len, pos, "list:") {
        Ok(p) => p,
        Err(er) => {
            return Err(er);
        },
    };
    Ok((ListFileResponse { list }, i1))
}

/// Whether two texts hold the same characters.
fn str_eq(a: &str, b: &str) -> (r: bool)
    ensures
        r == (a@ == b@),
{
    let al = a.unicode_len();
    let bl = b.unicode_len();
    if al != bl {
        return false;
    }
    let mut i: usize = 0;
    while i < al
        invariant
            al == a@.len(),
            bl == b@.len(),
            al == bl,
            i <= al,
            forall|m: int| 0 <= m < i ==> a@[m] == b@[m],
        decreases al - i,
    {
        if a.get_char(i) != b.get_char(i) {
            return false;
        }
        i += 1;
    }
    proof {
        assert(a@ =~= b@);
    }
    true
}

/// Reads a request back from its wire form.
///
/// The result is exactly what the wire-level parser [`parse_request`] says the
/// text stands for: `Ok` on precisely the texts that stand for a request, and
/// then the request they stand for, whose tag is the text's tag. So a text
/// that decodes is the decoded request's own encoding, character for
/// character. A text whose tag names none of the four operations is refused
/// as [`DecodeError::UnknownTag`], never a made-up variant.
pub fn deserialize_request(s: &str) -> (r: Result<DFSRequest, DecodeError>)
    ensures
        r matches Ok(q) ==> parse_request(s@) == Some(q@),
        r matches Ok(q) ==> s@ == enc_request(q@),
        r is Err ==> parse_request(s@) is None,
        r matches Ok(q) ==> wire_tag(s@) == Some(request_tag(q@)),
        (wire_tag(s@) matches Some(t) && !is_known_tag(t)) ==> r == Err::<
            DFSRequest,
            DecodeError,
        >(DecodeError::UnknownTag),
{
    let len = s.unicode_len();
    if len == 0 {
        return Err(DecodeError::Truncated);
    }
    if s.get_char(0) != '{' {
        return Err(DecodeError::Malformed);
    }
    let p1 = match expect_lit(s, len, 1, "type:") {
        None => {
            return Err(DecodeError::Malformed);
        },
        Some(j) => j,
    };
    let (tag, j) = match parse_str_val(s, len, p1) {
        Ok(p) => p,
        Err(er) => {
            return Err(er);
        },
    };
    let (req, e): (DFSRequest, usize) = if str_eq(tag.as_str(), "Create") {
        match parse_create_req(s, len, j) {
            Ok(p) => (DFSRequest::Create(p.0), p.1),
            Err(er) => {
                return Err(er);
            },
        }
    } else if str_eq(tag.as_str(), "Get") {
        match parse_get_req(s, len, j) {
            Ok(p) => (DFSRequest::Get(p.0), p.1),
            Err(er) => {
                return Err(er);
            },
        }
    } else if str_eq(tag.as_str(), "List") {
        match parse_list_req(s, len, j) {
            Ok(p) => (DFSRequest::List(p.0), p.1),
            Err(er) => {
                return Err(er);
            },
        }
    } else if str_eq(tag.as_str(), "Delete") {
        match parse_del_req(s, len, j) {
            Ok(p) => (DFSRequest::Delete(p.0), p.1),
            Err(er) => {
                return Err(er);
            },
        }
    } else {
        return Err(DecodeError::UnknownTag);
    };
    if e < len && s.get_char(e) == '}' && e + 1 == len {
        proof {
            lemma_parse_request_sound(s@);
        }
        Ok(req)
    } else {
        Err(DecodeError::Malformed)
    }
}

/// Reads a response back from its wire form, with the same guarantees as
/// [`deserialize_request`] against [`parse_response`].
pub fn deserialize_response(s: &str) -> (r: Result<DFSResponse, DecodeError>)
    ensures
        r matches Ok(q) ==> parse_response(s@) == Some(q@),
        r matches Ok(q) ==> s@ == enc_response(q@),
        r is Err ==> parse_response(s@) is None,
        r matches Ok(q) ==> wire_tag(s@) == Some(response_tag(q@)),
        (wire_tag(s@) matches Some(t) && !is_known_tag(t)) ==> r == Err::<
            DFSResponse,
            DecodeError,
        >(DecodeError::UnknownTag),
{
    let len = s.unicode_len();
    if len == 0 {
        return Err(DecodeError::Truncated);
    }
    if s.get_char(0) != '{' {
        return Err(DecodeError::Malformed);
    }
    let p1 = match expect_lit(s, len, 1, "type:") {
        None => {
            return Err(DecodeError::Malformed);
        },
        Some(j) => j,
    };
    let (tag, j) = match parse_str_val(s, len, p1) {
        Ok(p) => p,
        Err(er) => {
            return Err(er);
        },
    };
    let (resp, e): (DFSResponse, usize) = if str_eq(tag.as_str(), "Create") {
        match parse_create_resp(s, len, j) {
            Ok(p) => (DFSResponse::Create(p.0), p.1),
            Err(er) => {
                return Err(er);
            },
        }
    } else if str_eq(tag.as_str(), "Get") {
        match parse_get_resp(s, len, j) {
            Ok(p) => (DFSResponse::Get(p.0), p.1),
            Err(er) => {
                return Err(er);
            },
        }
    } else if str_eq(tag.as_str(), "List") {
        match parse_list_resp(s, len, j) {
            Ok(p) => (DFSResponse::List(p.0), p.1),
            Err(er) => {
                return Err(er);
            },
        }
    } else if str_eq(tag.as_str(), "Delete") {
        match parse_del_resp(s, len, j) {
            Ok(p) => (DFSResponse::Delete(p.0), p.1),
            Err(er) => {
                return Err(er);
            },
        }
    } else {
        return Err(DecodeError::UnknownTag);
    };
    if e < len && s.get_char(e) == '}' && e + 1 == len {
        proof {
            lemma_parse_response_sound(s@);
        }
        Ok(resp)
    } else {
        Err(DecodeError::Malformed)
    }
}

} // verus!
