//! The line-oriented wire protocol between game clients and the judge.
//!
//! Client frames: `HELLO <jwt> <since_seq>`, `ACT <kind> [payload]`, `PONG`.
//! Server frames: `WELCOME <player_id> <head_seq>`, `EVENT <seq> <kind> [payload]`,
//! `ERR <code> <msg>`, `PING`. Frames are single lines; verbs are case-sensitive;
//! surrounding whitespace is ignored and payloads keep their inner spacing.
use vstd::prelude::*;
use crate::text::{
    chars_of, dec, is_trimmed, is_word, is_ws, lemma_dec_facts, lemma_parse_dec, lemma_split_first_word,
    lemma_trim_noop, lemma_trim_start_prefix, parse_unsigned, parse_unsigned_range, push_all, push_dec, push_str, range_is,
    split_first, split_first_range, string_of, string_of_range, sub_vec, trim, trim_range,
};

verus! {

#[derive(Debug, Clone, PartialEq, Eq)]
pub enum ClientFrame {
    Hello { jwt: String, since: u64 },
    Act { kind: String, payload: String },
    Pong,
}

#[derive(Debug, Clone, PartialEq, Eq)]
pub enum ServerFrame {
    Welcome { player_id: String, head: u64 },
    Event { seq: u64, kind: String, payload: String },
    Error { code: String, msg: String },
    Ping,
}

#[derive(Debug)]
pub enum ParseError {
    Empty,
    UnknownVerb(String),
    Malformed { verb: &'static str, reason: String },
}

pub enum ClientFrameView {
    Hello { jwt: Seq<char>, since: u64 },
    Act { kind: Seq<char>, payload: Seq<char> },
    Pong,
}

pub enum ServerFrameView {
    Welcome { player_id: Seq<char>, head: u64 },
    Event { seq: u64, kind: Seq<char>, payload: Seq<char> },
    Error { code: Seq<char>, msg: Seq<char> },
    Ping,
}

pub enum ParseErrorView {
    Empty,
    UnknownVerb(Seq<char>),
    Malformed { verb: Seq<char>, reason: Seq<char> },
}

impl View for ClientFrame {
    type V = ClientFrameView;

    open spec fn view(&self) -> ClientFrameView {
        match self {
            ClientFrame::Hello { jwt, since } => ClientFrameView::Hello { jwt: jwt@, since: *since },
            ClientFrame::Act { kind, payload } => ClientFrameView::Act {
                kind: kind@,
                payload: payload@,
            },
            ClientFrame::Pong => ClientFrameView::Pong,
        }
    }
}

impl View for ServerFrame {
    type V = ServerFrameView;

    open spec fn view(&self) -> ServerFrameView {
        match self {
            ServerFrame::Welcome { player_id, head } => ServerFrameView::Welcome {
                player_id: player_id@,
                head: *head,
            },
            ServerFrame::Event { seq, kind, payload } => ServerFrameView::Event {
                seq: *seq,
                kind: kind@,
                payload: payload@,
            },
            ServerFrame::Error { code, msg } => ServerFrameView::Error { code: code@, msg: msg@ },
            ServerFrame::Ping => ServerFrameView::Ping,
        }
    }
}

impl View for ParseError {
    type V = ParseErrorView;

    open spec fn view(&self) -> ParseErrorView {
        match self {
            ParseError::Empty => ParseErrorView::Empty,
            ParseError::UnknownVerb(v) => ParseErrorView::UnknownVerb(v@),
            ParseError::Malformed { verb, reason } => ParseErrorView::Malformed {
                verb: verb@,
                reason: reason@,
            },
        }
    }
}

pub open spec fn result_view<T: View>(r: Result<T, ParseError>) -> Result<T::V, ParseErrorView> {
    match r {
        Ok(f) => Ok(f@),
        Err(e) => Err(e@),
    }
}

// ---------------------------------------------------------------------------
// Specification
// ---------------------------------------------------------------------------

/// What a client line parses to.
pub open spec fn parse_client_spec(line: Seq<char>) -> Result<ClientFrameView, ParseErrorView> {
    let t = trim(line);
    if t.len() == 0 {
        Err(ParseErrorView::Empty)
    } else {
        let (verb, rest) = split_first(t);
        if verb == "HELLO"@ {
            let (jwt, rest2) = split_first(rest);
            let tok = trim(rest2);
            if jwt.len() == 0 || tok.len() == 0 {
                Err(
                    ParseErrorView::Malformed {
                        verb: "HELLO"@,
                        reason: "expected: HELLO <jwt> <since_seq>"@,
                    },
                )
            } else {
                match parse_unsigned(tok, u64::MAX as nat) {
                    Some(n) => Ok(ClientFrameView::Hello { jwt, since: n as u64 }),
                    None => Err(
                        ParseErrorView::Malformed {
                            verb: "HELLO"@,
                            reason: "since not a u64: "@ + tok,
                        },
                    ),
                }
            }
        } else if verb == "ACT"@ {
            let (kind, payload) = split_first(rest);
            if kind.len() == 0 {
                Err(
                    ParseErrorView::Malformed {
                        verb: "ACT"@,
                        reason: "expected: ACT <kind> [payload]"@,
                    },
                )
            } else {
                Ok(ClientFrameView::Act { kind, payload })
            }
        } else if verb == "PONG"@ {
            Ok(ClientFrameView::Pong)
        } else {
            Err(ParseErrorView::UnknownVerb(verb))
        }
    }
}

/// The line a client frame is written as.
pub open spec fn serialize_client_spec(f: ClientFrameView) -> Seq<char> {
    match f {
        ClientFrameView::Hello { jwt, since } => "HELLO "@ + jwt + " "@ + dec(since as nat),
        ClientFrameView::Act { kind, payload } => if payload.len() == 0 {
            "ACT "@ + kind
        } else {
            "ACT "@ + kind + " "@ + payload
        },
        ClientFrameView::Pong => "PONG"@,
    }
}

/// The line a server frame is written as.
pub open spec fn serialize_server_spec(f: ServerFrameView) -> Seq<char> {
    match f {
        ServerFrameView::Welcome { player_id, head } => "WELCOME "@ + player_id + " "@ + dec(
            head as nat,
        ),
        ServerFrameView::Event { seq, kind, payload } => if payload.len() == 0 {
            "EVENT "@ + dec(seq as nat) + " "@ + kind
        } else {
            "EVENT "@ + dec(seq as nat) + " "@ + kind + " "@ + payload
        },
        ServerFrameView::Error { code, msg } => "ERR "@ + code + " "@ + msg,
        ServerFrameView::Ping => "PING"@,
    }
}

/// What a server line parses to.
pub open spec fn parse_server_spec(line: Seq<char>) -> Result<ServerFrameView, ParseErrorView> {
    let t = trim(line);
    if t.len() == 0 {
        Err(ParseErrorView::Empty)
    } else {
        let (verb, rest) = split_first(t);
        if verb == "WELCOME"@ {
            let (pid, rest2) = split_first(rest);
            let tok = trim(rest2);
            if pid.len() == 0 || tok.len() == 0 {
                Err(
                    ParseErrorView::Malformed {
                        verb: "WELCOME"@,
                        reason: "expected: WELCOME <player_id> <head_seq>"@,
                    },
                )
            } else {
                match parse_unsigned(tok, u64::MAX as nat) {
                    Some(n) => Ok(ServerFrameView::Welcome { player_id: pid, head: n as u64 }),
                    None => Err(
                        ParseErrorView::Malformed {
                            verb: "WELCOME"@,
                            reason: "head not a u64: "@ + tok,
                        },
                    ),
                }
            }
        } else if verb == "EVENT"@ {
            let (seq_tok, rest2) = split_first(rest);
            let (kind, payload) = split_first(rest2);
            if seq_tok.len() == 0 || kind.len() == 0 {
                Err(
                    ParseErrorView::Malformed {
                        verb: "EVENT"@,
                        reason: "expected: EVENT <seq> <kind> [payload]"@,
                    },
                )
            } else {
                match parse_unsigned(seq_tok, u64::MAX as nat) {
                    Some(n) => Ok(ServerFrameView::Event { seq: n as u64, kind, payload }),
                    None => Err(
                        ParseErrorView::Malformed {
                            verb: "EVENT"@,
                            reason: "seq not a u64: "@ + seq_tok,
                        },
                    ),
                }
            }
        } else if verb == "ERR"@ {
            let (code, msg) = split_first(rest);
            if code.len() == 0 {
                Err(
                    ParseErrorView::Malformed {
                        verb: "ERR"@,
                        reason: "expected: ERR <code> <msg>"@,
                    },
                )
            } else {
                Ok(ServerFrameView::Error { code, msg })
            }
        } else if verb == "PING"@ {
            Ok(ServerFrameView::Ping)
        } else {
            Err(ParseErrorView::UnknownVerb(verb))
        }
    }
}

// ---------------------------------------------------------------------------
// Round trips
// ---------------------------------------------------------------------------

/// Client frames that survive being written and read back: words where the
/// grammar has words, and payloads without surrounding whitespace.
pub open spec fn client_frame_ok(f: ClientFrameView) -> bool {
    match f {
        ClientFrameView::Hello { jwt, since } => is_word(jwt),
        ClientFrameView::Act { kind, payload } => is_word(kind) && is_trimmed(payload),
        ClientFrameView::Pong => true,
    }
}

/// Server frames that survive being written and read back.
pub open spec fn server_frame_ok(f: ServerFrameView) -> bool {
    match f {
        ServerFrameView::Welcome { player_id, head } => is_word(player_id),
        ServerFrameView::Event { seq, kind, payload } => is_word(kind) && is_trimmed(payload),
        ServerFrameView::Error { code, msg } => is_word(code) && is_trimmed(msg),
        ServerFrameView::Ping => true,
    }
}

proof fn lemma_literals()
    ensures
        "HELLO"@ =~= seq!['H', 'E', 'L', 'L', 'O'],
        "HELLO "@ =~= "HELLO"@ + seq![' '],
        "ACT"@ =~= seq!['A', 'C', 'T'],
        "ACT "@ =~= "ACT"@ + seq![' '],
        "PONG"@ =~= seq!['P', 'O', 'N', 'G'],
        "WELCOME"@ =~= seq!['W', 'E', 'L', 'C', 'O', 'M', 'E'],
        "WELCOME "@ =~= "WELCOME"@ + seq![' '],
        "EVENT"@ =~= seq!['E', 'V', 'E', 'N', 'T'],
        "EVENT "@ =~= "EVENT"@ + seq![' '],
        "ERR"@ =~= seq!['E', 'R', 'R'],
        "ERR "@ =~= "ERR"@ + seq![' '],
        "PING"@ =~= seq!['P', 'I', 'N', 'G'],
        " "@ =~= seq![' '],
        is_word("HELLO"@),
        is_word("ACT"@),
        is_word("PONG"@),
        is_word("WELCOME"@),
        is_word("EVENT"@),
        is_word("ERR"@),
        is_word("PING"@),
{
    reveal_strlit("HELLO");
    reveal_strlit("HELLO ");
    reveal_strlit("ACT");
    reveal_strlit("ACT ");
    reveal_strlit("PONG");
    reveal_strlit("WELCOME");
    reveal_strlit("WELCOME ");
    reveal_strlit("EVENT");
    reveal_strlit("EVENT ");
    reveal_strlit("ERR");
    reveal_strlit("ERR ");
    reveal_strlit("PING");
    reveal_strlit(" ");
}

/// Law: a well-formed client frame, written as a line and parsed back, is
/// the same frame.
pub proof fn law_client_round_trip(f: ClientFrameView)
    requires
        client_frame_ok(f),
    ensures
        parse_client_spec(serialize_client_spec(f)) == Ok::<ClientFrameView, ParseErrorView>(f),
{
    lemma_literals();
    let sp = seq![' '];
    let e = Seq::<char>::empty();
    match f {
        ClientFrameView::Hello { jwt, since } => {
            let d = dec(since as nat);
            lemma_dec_facts(since as nat);
            let s = serialize_client_spec(f);
            let tail = jwt + (sp + d);
            assert(s =~= "HELLO"@ + (sp + tail));
            assert(s[0] == 'H');
            assert(s.last() == d.last());
            lemma_trim_noop(s);
            lemma_split_first_word("HELLO"@, sp + tail);
            lemma_trim_start_prefix(sp, tail);
            lemma_split_first_word(jwt, sp + d);
            lemma_trim_start_prefix(sp, d);
            assert(d.len() > 0 ==> !is_ws(d[0]) && !is_ws(d.last()));
            lemma_trim_noop(d);
            lemma_parse_dec(since as nat, u64::MAX as nat);
        },
        ClientFrameView::Act { kind, payload } => {
            let s = serialize_client_spec(f);
            if payload.len() == 0 {
                assert(s =~= "ACT"@ + (sp + kind));
                assert(s[0] == 'A');
                assert(s.last() == kind.last());
                lemma_trim_noop(s);
                lemma_split_first_word("ACT"@, sp + kind);
                lemma_trim_start_prefix(sp, kind);
                assert(kind + e =~= kind);
                lemma_split_first_word(kind, e);
                lemma_trim_start_prefix(e, e);
                assert(e + e =~= e);
                assert(payload =~= e);
            } else {
                let tail = kind + (sp + payload);
                assert(s =~= "ACT"@ + (sp + tail));
                assert(s[0] == 'A');
                assert(s.last() == payload.last());
                lemma_trim_noop(s);
                lemma_split_first_word("ACT"@, sp + tail);
                lemma_trim_start_prefix(sp, tail);
                lemma_split_first_word(kind, sp + payload);
                lemma_trim_start_prefix(sp, payload);
            }
            assert("ACT"@ != "HELLO"@);
        },
        ClientFrameView::Pong => {
            let s = serialize_client_spec(f);
            lemma_trim_noop(s);
            assert(s + e =~= s);
            lemma_split_first_word(s, e);
            assert("PONG"@ != "HELLO"@);
            assert("PONG"@ != "ACT"@);
        },
    }
}

/// Law: a well-formed server frame, written as a line and parsed back, is
/// the same frame.
pub proof fn law_server_round_trip(f: ServerFrameView)
    requires
        server_frame_ok(f),
    ensures
        parse_server_spec(serialize_server_spec(f)) == Ok::<ServerFrameView, ParseErrorView>(f),
{
    lemma_literals();
    let sp = seq![' '];
    let e = Seq::<char>::empty();
    match f {
        ServerFrameView::Welcome { player_id, head } => {
            let d = dec(head as nat);
            lemma_dec_facts(head as nat);
            let s = serialize_server_spec(f);
            let tail = player_id + (sp + d);
            assert(s =~= "WELCOME"@ + (sp + tail));
            assert(s[0] == 'W');
            assert(s.last() == d.last());
            lemma_trim_noop(s);
            lemma_split_first_word("WELCOME"@, sp + tail);
            lemma_trim_start_prefix(sp, tail);
            lemma_split_first_word(player_id, sp + d);
            lemma_trim_start_prefix(sp, d);
            lemma_trim_noop(d);
            lemma_parse_dec(head as nat, u64::MAX as nat);
        },
        ServerFrameView::Event { seq, kind, payload } => {
            let d = dec(seq as nat);
            lemma_dec_facts(seq as nat);
            assert(is_word(d));
            let s = serialize_server_spec(f);
            if payload.len() == 0 {
                let tail = d + (sp + kind);
                assert(s =~= "EVENT"@ + (sp + tail));
                assert(s[0] == 'E');
                assert(s.last() == kind.last());
                lemma_trim_noop(s);
                lemma_split_first_word("EVENT"@, sp + tail);
                lemma_trim_start_prefix(sp, tail);
                lemma_split_first_word(d, sp + kind);
                lemma_trim_start_prefix(sp, kind);
                assert(kind + e =~= kind);
                lemma_split_first_word(kind, e);
                lemma_trim_start_prefix(e, e);
                assert(e + e =~= e);
                assert(payload =~= e);
            } else {
                let tail = d + (sp + (kind + (sp + payload)));
                assert(s =~= "EVENT"@ + (sp + tail));
                assert(s[0] == 'E');
                assert(s.last() == payload.last());
                lemma_trim_noop(s);
                lemma_split_first_word("EVENT"@, sp + tail);
                lemma_trim_start_prefix(sp, tail);
                lemma_split_first_word(d, sp + (kind + (sp + payload)));
                lemma_trim_start_prefix(sp, kind + (sp + payload));
                lemma_split_first_word(kind, sp + payload);
                lemma_trim_start_prefix(sp, payload);
            }
            lemma_parse_dec(seq as nat, u64::MAX as nat);
            assert("EVENT"@ != "WELCOME"@);
        },
        ServerFrameView::Error { code, msg } => {
            let s = serialize_server_spec(f);
            let tail = code + (sp + msg);
            assert(s =~= "ERR"@ + (sp + tail));
            assert(s[0] == 'E');
            if msg.len() > 0 {
                assert(s.last() == msg.last());
            } else {
                assert(s.last() == ' ');
            }
            lemma_split_first_word("ERR"@, sp + tail);
            lemma_trim_start_prefix(sp, tail);
            lemma_split_first_word(code, sp + msg);
            lemma_trim_start_prefix(sp, msg);
            assert("ERR"@ != "WELCOME"@);
            assert("ERR"@ != "EVENT"@);
            if msg.len() > 0 {
                lemma_trim_noop(s);
            } else {
                // the trailing separator is trimmed away
                let t = "ERR"@ + (sp + code);
                assert(s =~= t + sp);
                assert(t[0] == 'E');
                assert(t.last() == code.last());
                lemma_trim_noop(t);
                assert(trim(s) == t) by {
                    crate::text::lemma_trim_end_suffix(t, sp);
                    crate::text::lemma_lead_ws_char(s, 0);
                    assert(crate::text::trim_start(s) =~= s);
                }
                lemma_split_first_word("ERR"@, sp + code);
                lemma_trim_start_prefix(sp, code);
                assert(code + e =~= code);
                lemma_split_first_word(code, e);
                lemma_trim_start_prefix(e, e);
                assert(e + e =~= e);
                assert(msg =~= e);
            }
        },
        ServerFrameView::Ping => {
            let s = serialize_server_spec(f);
            lemma_trim_noop(s);
            assert(s + e =~= s);
            lemma_split_first_word(s, e);
            assert("PING"@ != "WELCOME"@);
            assert("PING"@ != "EVENT"@);
            assert("PING"@ != "ERR"@);
        },
    }
}

// ---------------------------------------------------------------------------
// Implementation
// ---------------------------------------------------------------------------

pub fn parse_client(line: &str) -> (r: Result<ClientFrame, ParseError>)
    ensures
        result_view(r) == parse_client_spec(line@),
{
    let v = chars_of(line);
    let ghost l = v@;
    let (a, b) = trim_range(&v, 0, v.len());
    proof {
        assert(l.subrange(0, l.len() as int) =~= l);
    }
    if a == b {
        return Err(ParseError::Empty);
    }
    let (va, vb, rest) = split_first_range(&v, a, b);
    if range_is(&v, va, vb, "HELLO") {
        let (ja, jb, r2) = split_first_range(&v, rest, b);
        let (ta, tb) = trim_range(&v, r2, b);
        if ja == jb || ta == tb {
            return Err(
                ParseError::Malformed {
                    verb: "HELLO",
                    reason: String::from_str("expected: HELLO <jwt> <since_seq>"),
                },
            );
        }
        match parse_unsigned_range(&v, ta, tb, u64::MAX) {
            Some(n) => Ok(ClientFrame::Hello { jwt: string_of_range(&v, ja, jb), since: n }),
            None => {
                let mut msg: Vec<char> = Vec::new();
                push_str(&mut msg, "since not a u64: ");
                let tok = sub_vec(&v, ta, tb);
                push_all(&mut msg, &tok);
                Err(ParseError::Malformed { verb: "HELLO", reason: string_of(&msg) })
            },
        }
    } else if range_is(&v, va, vb, "ACT") {
        let (ka, kb, pa) = split_first_range(&v, rest, b);
        if ka == kb {
            return Err(
                ParseError::Malformed {
                    verb: "ACT",
                    reason: String::from_str("expected: ACT <kind> [payload]"),
                },
            );
        }
        Ok(ClientFrame::Act { kind: string_of_range(&v, ka, kb), payload: string_of_range(&v, pa, b) })
    } else if range_is(&v, va, vb, "PONG") {
        Ok(ClientFrame::Pong)
    } else {
        Err(ParseError::UnknownVerb(string_of_range(&v, va, vb)))
    }
}

pub fn serialize_client(frame: &ClientFrame) -> (s: String)
    ensures
        s@ == serialize_client_spec(frame@),
{
    let mut out: Vec<char> = Vec::new();
    match frame {
        ClientFrame::Hello { jwt, since } => {
            push_str(&mut out, "HELLO ");
            push_str(&mut out, jwt.as_str());
            push_str(&mut out, " ");
            push_dec(&mut out, *since);
        },
        ClientFrame::Act { kind, payload } => {
            push_str(&mut out, "ACT ");
            push_str(&mut out, kind.as_str());
            let p = chars_of(payload.as_str());
            if p.len() > 0 {
                push_str(&mut out, " ");
                push_all(&mut out, &p);
            }
        },
        ClientFrame::Pong => {
            push_str(&mut out, "PONG");
        },
    }
    proof {
        assert(out@ =~= serialize_client_spec(frame@));
    }
    string_of(&out)
}

pub fn serialize_server(frame: &ServerFrame) -> (s: String)
    ensures
        s@ == serialize_server_spec(frame@),
{
    let mut out: Vec<char> = Vec::new();
    match frame {
        ServerFrame::Welcome { player_id, head } => {
            push_str(&mut out, "WELCOME ");
            push_str(&mut out, player_id.as_str());
            push_str(&mut out, " ");
            push_dec(&mut out, *head);
        },
        ServerFrame::Event { seq, kind, payload } => {
            push_str(&mut out, "EVENT ");
            push_dec(&mut out, *seq);
            push_str(&mut out, " ");
            push_str(&mut out, kind.as_str());
            let p = chars_of(payload.as_str());
            if p.len() > 0 {
                push_str(&mut out, " ");
                push_all(&mut out, &p);
            }
        },
        ServerFrame::Error { code, msg } => {
            push_str(&mut out, "ERR ");
            push_str(&mut out, code.as_str());
            push_str(&mut out, " ");
            push_str(&mut out, msg.as_str());
        },
        ServerFrame::Ping => {
            push_str(&mut out, "PING");
        },
    }
    proof {
        assert(out@ =~= serialize_server_spec(frame@));
    }
    string_of(&out)
}

pub fn parse_server(line: &str) -> (r: Result<ServerFrame, ParseError>)
    ensures
        result_view(r) == parse_server_spec(line@),
{
    let v = chars_of(line);
    let ghost l = v@;
    let (a, b) = trim_range(&v, 0, v.len());
    proof {
        assert(l.subrange(0, l.len() as int) =~= l);
    }
    if a == b {
        return Err(ParseError::Empty);
    }
    let (va, vb, rest) = split_first_range(&v, a, b);
    if range_is(&v, va, vb, "WELCOME") {
        let (pa, pb, r2) = split_first_range(&v, rest, b);
        let (ta, tb) = trim_range(&v, r2, b);
        if pa == pb || ta == tb {
            return Err(
                ParseError::Malformed {
                    verb: "WELCOME",
                    reason: String::from_str("expected: WELCOME <player_id> <head_seq>"),
                },
            );
        }
        match parse_unsigned_range(&v, ta, tb, u64::MAX) {
            Some(n) => Ok(ServerFrame::Welcome { player_id: string_of_range(&v, pa, pb), head: n }),
            None => {
                let mut msg: Vec<char> = Vec::new();
                push_str(&mut msg, "head not a u64: ");
                let tok = sub_vec(&v, ta, tb);
                push_all(&mut msg, &tok);
                Err(ParseError::Malformed { verb: "WELCOME", reason: string_of(&msg) })
            },
        }
    } else if range_is(&v, va, vb, "EVENT") {
        let (sa, sb, r2) = split_first_range(&v, rest, b);
        let (ka, kb, pa) = split_first_range(&v, r2, b);
        if sa == sb || ka == kb {
            return Err(
                ParseError::Malformed {
                    verb: "EVENT",
                    reason: String::from_str("expected: EVENT <seq> <kind> [payload]"),
                },
            );
        }
        match parse_unsigned_range(&v, sa, sb, u64::MAX) {
            Some(n) => Ok(
                ServerFrame::Event {
                    seq: n,
                    kind: string_of_range(&v, ka, kb),
                    payload: string_of_range(&v, pa, b),
                },
            ),
            None => {
                let mut msg: Vec<char> = Vec::new();
                push_str(&mut msg, "seq not a u64: ");
                let tok = sub_vec(&v, sa, sb);
                push_all(&mut msg, &tok);
                Err(ParseError::Malformed { verb: "EVENT", reason: string_of(&msg) })
            },
        }
    } else if range_is(&v, va, vb, "ERR") {
        let (ca, cb, ma) = split_first_range(&v, rest, b);
        if ca == cb {
            return Err(
                ParseError::Malformed {
                    verb: "ERR",
                    reason: String::from_str("expected: ERR <code> <msg>"),
                },
            );
        }
        Ok(ServerFrame::Error { code: string_of_range(&v, ca, cb), msg: string_of_range(&v, ma, b) })
    } else if range_is(&v, va, vb, "PING") {
        Ok(ServerFrame::Ping)
    } else {
        Err(ParseError::UnknownVerb(string_of_range(&v, va, vb)))
    }
}

} // verus!
