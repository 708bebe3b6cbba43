use vstd::prelude::*;

use crate::text::{bytes_eq, lower_seq, starts_with, starts_with_spec, to_lower, trim, trim_spec,
    views_of};

verus! {

/// A parsed first command line: create a fresh room, or join one by code.
pub enum Intent {
    CreateRoom,
    JoinRoom { code: Vec<u8> },
}

/// The mathematical shape of an `Intent`.
pub enum IntentView {
    CreateRoom,
    JoinRoom { code: Seq<u8> },
}

impl View for Intent {
    type V = IntentView;

    open spec fn view(&self) -> IntentView {
        match self {
            Intent::CreateRoom => IntentView::CreateRoom,
            Intent::JoinRoom { code } => IntentView::JoinRoom { code: code@ },
        }
    }
}

/// Why a command line is refused: the command token is unknown or missing, or
/// a join code does not have the fixed room-code length.
pub enum ProtocolError {
    InvalidCommand,
    InvalidRoomCode,
}

/// The fixed namespace prefix a command line must bear.
pub open spec fn cmd_prefix_bytes() -> Seq<u8> {
    seq![100u8, 100, 58, 58, 99, 111, 114, 101, 58, 58]
}

/// Builds the bytes of `cmd_prefix_bytes`.
pub fn cmd_prefix_vec() -> (r: Vec<u8>)
    ensures
        r@ == cmd_prefix_bytes(),
{
    let mut r: Vec<u8> = Vec::new();
    r.push(100);
    r.push(100);
    r.push(58);
    r.push(58);
    r.push(99);
    r.push(111);
    r.push(114);
    r.push(101);
    r.push(58);
    r.push(58);
    proof {
        assert(r@ =~= cmd_prefix_bytes());
    }
    r
}

/// The create-room token, in lowercase.
pub open spec fn new_room_bytes() -> Seq<u8> {
    seq![110u8, 101, 119, 95, 114, 111, 111, 109]
}

/// Builds the bytes of `new_room_bytes`.
pub fn new_room_vec() -> (r: Vec<u8>)
    ensures
        r@ == new_room_bytes(),
{
    let mut r: Vec<u8> = Vec::new();
    r.push(110);
    r.push(101);
    r.push(119);
    r.push(95);
    r.push(114);
    r.push(111);
    r.push(111);
    r.push(109);
    proof {
        assert(r@ =~= new_room_bytes());
    }
    r
}

/// The join-room token, in lowercase.
pub open spec fn join_room_bytes() -> Seq<u8> {
    seq![106u8, 111, 105, 110, 95, 114, 111, 111, 109]
}

/// Builds the bytes of `join_room_bytes`.
pub fn join_room_vec() -> (r: Vec<u8>)
    ensures
        r@ == join_room_bytes(),
{
    let mut r: Vec<u8> = Vec::new();
    r.push(106);
    r.push(111);
    r.push(105);
    r.push(110);
    r.push(95);
    r.push(114);
    r.push(111);
    r.push(111);
    r.push(109);
    proof {
        assert(r@ =~= join_room_bytes());
    }
    r
}
/// Whether a `::` separator sits at position `i` of `s`.
pub open spec fn sep_at(s: Seq<u8>, i: int) -> bool {
    0 <= i && i + 2 <= s.len() && s[i] == 58 && s[i + 1] == 58
}

/// The tokens of `s` split on `::`, first separator first; always non-empty.
pub open spec fn split_sep(s: Seq<u8>) -> Seq<Seq<u8>>
    decreases s.len(),
{
    if sep_at(s, 0) {
        seq![Seq::<u8>::empty()] + split_sep(s.subrange(2, s.len() as int))
    } else if s.len() == 0 {
        seq![s]
    } else {
        let rest = split_sep(s.subrange(1, s.len() as int));
        seq![seq![s[0]] + rest[0]] + rest.subrange(1, rest.len() as int)
    }
}

pub proof fn lemma_split_len(s: Seq<u8>)
    ensures
        split_sep(s).len() >= 1,
    decreases s.len(),
{
    if sep_at(s, 0) {
        lemma_split_len(s.subrange(2, s.len() as int));
    } else if s.len() > 0 {
        lemma_split_len(s.subrange(1, s.len() as int));
    }
}

proof fn lemma_split_first_sep(s: Seq<u8>, i: int)
    requires
        sep_at(s, i),
        forall|k: int| 0 <= k < i ==> !sep_at(s, k),
    ensures
        split_sep(s) == seq![s.subrange(0, i)] + split_sep(s.subrange(i + 2, s.len() as int)),
    decreases i,
{
    if i == 0 {
        assert(s.subrange(0, 0) =~= Seq::<u8>::empty());
        assert(seq![s.subrange(0, 0)] =~= seq![Seq::<u8>::empty()]);
    } else {
        assert(!sep_at(s, 0));
        let t = s.subrange(1, s.len() as int);
        assert(sep_at(t, i - 1));
        assert(forall|k: int| 0 <= k < i - 1 ==> sep_at(t, k) ==> sep_at(s, k + 1));
        lemma_split_first_sep(t, i - 1);
        lemma_split_len(t.subrange(i + 1, t.len() as int));
        let rest = split_sep(t);
        assert(rest[0] == t.subrange(0, i - 1));
        assert(seq![s[0]] + t.subrange(0, i - 1) =~= s.subrange(0, i));
        assert(rest.subrange(1, rest.len() as int) =~= split_sep(t.subrange(i + 1, t.len() as int)));
        assert(t.subrange(i + 1, t.len() as int) =~= s.subrange(i + 2, s.len() as int));
        assert(split_sep(s) =~= seq![s.subrange(0, i)] + split_sep(
            s.subrange(i + 2, s.len() as int),
        ));
    }
}

proof fn lemma_split_no_sep(s: Seq<u8>)
    requires
        forall|k: int| !sep_at(s, k),
    ensures
        split_sep(s) == seq![s],
    decreases s.len(),
{
    if s.len() > 0 {
        let t = s.subrange(1, s.len() as int);
        assert(forall|k: int| sep_at(t, k) ==> sep_at(s, k + 1));
        lemma_split_no_sep(t);
        assert(seq![s[0]] + t =~= s);
        assert(split_sep(s) =~= seq![s]);
    }
}

/// The first `::` at or after `from`, if any.
fn find_sep(v: &Vec<u8>, from: usize) -> (r: Option<usize>)
    requires
        from <= v@.len(),
    ensures
        match r {
            Some(i) => from <= i && sep_at(v@, i as int) && forall|k: int|
                from <= k < i ==> !sep_at(v@, k),
            None => forall|k: int| from <= k ==> !sep_at(v@, k),
        },
{
    if v.len() < 2 {
        return None;
    }
    let n = v.len();
    let end = n - 2;
    let mut i: usize = from;
    while i <= end
        invariant
            from <= i <= end + 2,
            end == n - 2,
            n == v@.len(),
            forall|k: int| from <= k < i ==> !sep_at(v@, k),
        decreases end + 1 - i,
    {
        if v[i] == 58 && v[i + 1] == 58 {
            return Some(i);
        }
        i = i + 1;
    }
    None
}

/// Splits `v` on `::`, as `split_sep` states it.
pub fn split_tokens(v: &Vec<u8>) -> (r: Vec<Vec<u8>>)
    ensures
        views_of(r@) == split_sep(v@),
{
    let mut toks: Vec<Vec<u8>> = Vec::new();
    let mut pos: usize = 0;
    let n = v.len();
    proof {
        assert(views_of(toks@) =~= Seq::<Seq<u8>>::empty());
        assert(v@.subrange(0, v@.len() as int) =~= v@);
        assert(Seq::<Seq<u8>>::empty() + split_sep(v@) =~= split_sep(v@));
    }
    loop
        invariant
            pos <= v@.len(),
            v@.len() == n as int,
            split_sep(v@) == views_of(toks@) + split_sep(v@.subrange(pos as int, v@.len() as int)),
        decreases v@.len() - pos,
    {
        let ghost rem = v@.subrange(pos as int, v@.len() as int);
        match find_sep(v, pos) {
            Some(i) => {
                let tok = crate::text::sub_vec(v, pos, i);
                proof {
                    assert(sep_at(rem, i - pos)) by {
                        assert(rem[i - pos] == v@[i as int]);
                        assert(rem[i - pos + 1] == v@[i + 1]);
                    }
                    assert forall|k: int| 0 <= k < i - pos implies !sep_at(rem, k) by {
                        assert(!sep_at(v@, pos + k));
                        if sep_at(rem, k) {
                            assert(rem[k] == v@[pos + k]);
                            assert(rem[k + 1] == v@[pos + k + 1]);
                            assert(sep_at(v@, pos + k));
                        }
                    }
                    lemma_split_first_sep(rem, i - pos);
                    assert(rem.subrange(0, i - pos) =~= v@.subrange(pos as int, i as int));
                    assert(rem.subrange(i - pos + 2, rem.len() as int) =~= v@.subrange(
                        i + 2,
                        v@.len() as int,
                    ));
                    assert(views_of(toks@.push(tok)) =~= views_of(toks@) + seq![tok@]);
                    assert(views_of(toks@) + seq![v@.subrange(pos as int, i as int)] + split_sep(
                        v@.subrange(i + 2, v@.len() as int),
                    ) =~= views_of(toks@) + (seq![v@.subrange(pos as int, i as int)] + split_sep(
                        v@.subrange(i + 2, v@.len() as int),
                    )));
                }
                toks.push(tok);
                proof {
                    assert(i + 2 <= v@.len());
                }
                pos = i + 2;
            },
            None => {
                let tok = crate::text::sub_vec(v, pos, v.len());
                proof {
                    assert forall|k: int| !sep_at(rem, k) by {
                        if 0 <= k && k + 2 <= rem.len() {
                            assert(!sep_at(v@, pos + k));
                            if sep_at(rem, k) {
                                assert(rem[k] == v@[pos + k]);
                                assert(rem[k + 1] == v@[pos + k + 1]);
                                assert(sep_at(v@, pos + k));
                            }
                        }
                    }
                    lemma_split_no_sep(rem);
                    assert(views_of(toks@.push(tok)) =~= views_of(toks@) + seq![tok@]);
                }
                toks.push(tok);
                return toks;
            },
        }
    }
}

/// What a command line parses to: the token at position two, case-folded,
/// picks the intent; a join takes the token at position three, lowercased, as
/// the room code, which must be exactly eight bytes long.
pub open spec fn parse_spec(line: Seq<u8>) -> Result<IntentView, ProtocolError> {
    let toks = split_sep(line);
    if toks.len() > 2 && lower_seq(toks[2]) == new_room_bytes() {
        Ok(IntentView::CreateRoom)
    } else if toks.len() > 2 && lower_seq(toks[2]) == join_room_bytes() {
        let code = if toks.len() > 3 {
            lower_seq(toks[3])
        } else {
            Seq::empty()
        };
        if code.len() == 8 {
            Ok(IntentView::JoinRoom { code })
        } else {
            Err(ProtocolError::InvalidRoomCode)
        }
    } else {
        Err(ProtocolError::InvalidCommand)
    }
}

/// Parses one command line, as `parse_spec` states it.
pub fn parse(line: &Vec<u8>) -> (r: Result<Intent, ProtocolError>)
    ensures
        match r {
            Ok(intent) => parse_spec(line@) == Ok::<IntentView, ProtocolError>(intent@),
            Err(e) => parse_spec(line@) == Err::<IntentView, ProtocolError>(e),
        },
{
    let toks = split_tokens(line);
    proof {
        assert(toks@.len() == split_sep(line@).len());
    }
    if toks.len() > 2 {
        let t2 = to_lower(&toks[2]);
        proof {
            assert(views_of(toks@)[2] == toks@[2]@);
        }
        let nr = new_room_vec();
        if bytes_eq(&t2, &nr) {
            return Ok(Intent::CreateRoom);
        }
        let jr = join_room_vec();
        if bytes_eq(&t2, &jr) {
            let code: Vec<u8> = if toks.len() > 3 {
                proof {
                    assert(views_of(toks@)[3] == toks@[3]@);
                }
                to_lower(&toks[3])
            } else {
                Vec::new()
            };
            proof {
                assert(lower_seq(Seq::<u8>::empty()) =~= Seq::<u8>::empty());
            }
            if code.len() == 8 {
                return Ok(Intent::JoinRoom { code });
            } else {
                return Err(ProtocolError::InvalidRoomCode);
            }
        }
        return Err(ProtocolError::InvalidCommand);
    }
    Err(ProtocolError::InvalidCommand)
}

/// Whether a line, once trimmed, bears the command prefix; lines that do not
/// are keepalive noise the session discards while awaiting the room command.
pub open spec fn is_command_spec(line: Seq<u8>) -> bool {
    starts_with_spec(trim_spec(line), cmd_prefix_bytes())
}

/// Whether `line` is a command line, as `is_command_spec` states it.
pub fn is_command_line(line: &Vec<u8>) -> (r: bool)
    ensures
        r == is_command_spec(line@),
{
    let t = trim(line);
    let p = cmd_prefix_vec();
    starts_with(&t, &p)
}

} // verus!
