//! `ArbCmd`: an interface identifier, an operation identifier and an
//! `ArbData` argument, with its textual form.

use crate::error::{inv_arg, Error, Result};
use crate::text::{push_str, str_chars, string_from_chars};
use crate::types::arb_data::{
    arb_text, args_text, json_object_len, json_to_cbor, lemma_text_roundtrip, parse_arb, parse_args,
    ArbData, ArbParse,
};
use crate::cbor::spec_canonicalize;
use vstd::prelude::*;

verus! {

/// Whether `c` may appear in an identifier: `[a-zA-Z0-9_]`.
pub open spec fn is_id_char(c: char) -> bool {
    ('a' <= c <= 'z') || ('A' <= c <= 'Z') || ('0' <= c <= '9') || c == '_'
}

/// Whether every character of `id` may appear in an identifier.
pub open spec fn all_id_chars(id: Seq<char>) -> bool {
    forall|i: int| 0 <= i < id.len() ==> is_id_char(#[trigger] id[i])
}

/// Whether `id` is a valid identifier: not empty, and only `[a-zA-Z0-9_]`.
pub open spec fn valid_id(id: Seq<char>) -> bool {
    id.len() > 0 && all_id_chars(id)
}

/// Why `id` is not a valid identifier, or `None` when it is.
pub open spec fn id_error(id: Seq<char>) -> Option<Seq<char>> {
    if !all_id_chars(id) {
        Some(
            "\""@ + id
                + "\" is not a valid identifier; it contains characters outside [a-zA-Z0-9_]"@,
        )
    } else if id.len() == 0 {
        Some("identifiers must not be empty"@)
    } else {
        None
    }
}

/// An identifier is valid exactly when it is not empty and every character
/// is an ASCII letter, an ASCII digit or `_`; when some other character
/// occurs, such as `-` in `my-iface`, it is refused with the message naming
/// the allowed characters.
pub proof fn lemma_identifier_chars(id: Seq<char>)
    ensures
        id_error(id) is None <==> (id.len() > 0 && forall|i: int|
            0 <= i < id.len() ==> ('a' <= #[trigger] id[i] && id[i] <= 'z') || ('A' <= id[i] && id[i]
                <= 'Z') || ('0' <= id[i] && id[i] <= '9') || id[i] == '_'),
        valid_id(id) <==> id_error(id) is None,
        (exists|i: int|
            0 <= i < id.len() && !(('a' <= #[trigger] id[i] && id[i] <= 'z') || ('A' <= id[i] && id[i]
                <= 'Z') || ('0' <= id[i] && id[i] <= '9') || id[i] == '_')) ==> id_error(id) == Some(
            "\""@ + id + "\" is not a valid identifier; it contains characters outside [a-zA-Z0-9_]"@,
        ),
{
}

/// The index of the first `c` in `s`, if any.
pub open spec fn find_char(s: Seq<char>, c: char) -> Option<nat>
    decreases s.len(),
{
    if s.len() == 0 {
        None
    } else if s[0] == c {
        Some(0)
    } else {
        match find_char(s.drop_first(), c) {
            Some(i) => Some(i + 1),
            None => None,
        }
    }
}

/// The outcome of parsing the textual form of an `ArbCmd`.
pub enum ArbCmdParse {
    /// The text holds these identifiers and this data.
    Parsed(Seq<char>, Seq<char>, (Seq<u8>, Seq<Seq<u8>>)),
    /// The text is rejected with this message.
    Rejected(Seq<char>),
    /// The JSON object converted to CBOR that canonicalization rejected.
    InvalidCbor,
}

/// Where the operation identifier ends in what follows the interface
/// identifier, and how the data is written after it.
pub enum ArgMode {
    /// No data: the default `ArbData`.
    Omitted,
    /// After this index, binary strings only.
    JsonOmitted(nat),
    /// After this index, the complete textual form of an `ArbData`.
    Complete(nat),
}

/// How the data is written in `s`, the text after the interface identifier
/// and its period: the first period or colon ends the operation identifier.
pub open spec fn arg_mode(s: Seq<char>) -> ArgMode {
    match (find_char(s, '.'), find_char(s, ':')) {
        (Some(p), Some(c)) => if p < c {
            ArgMode::JsonOmitted(p)
        } else {
            ArgMode::Complete(c)
        },
        (Some(p), None) => ArgMode::JsonOmitted(p),
        (None, Some(c)) => ArgMode::Complete(c),
        (None, None) => ArgMode::Omitted,
    }
}

/// Parses the rest of an `ArbCmd` text, given its interface identifier.
pub open spec fn parse_cmd_rest(iface: Seq<char>, s: Seq<char>) -> ArbCmdParse {
    match arg_mode(s) {
        ArgMode::Omitted => match id_error(s) {
            Some(m) => ArbCmdParse::Rejected(m),
            None => ArbCmdParse::Parsed(iface, s, (seq![0xA0u8], Seq::empty())),
        },
        ArgMode::JsonOmitted(o) => match id_error(s.take(o as int)) {
            Some(m) => ArbCmdParse::Rejected(m),
            None => match parse_args(s.skip(o + 1 as int)) {
                Ok(a) => ArbCmdParse::Parsed(iface, s.take(o as int), (seq![0xA0u8], a)),
                Err(m) => ArbCmdParse::Rejected(m),
            },
        },
        ArgMode::Complete(o) => match id_error(s.take(o as int)) {
            Some(m) => ArbCmdParse::Rejected(m),
            None => match parse_arb(s.skip(o + 1 as int)) {
                ArbParse::Parsed(c, a) => ArbCmdParse::Parsed(iface, s.take(o as int), (c, a)),
                ArbParse::Rejected(m) => ArbCmdParse::Rejected(m),
                ArbParse::InvalidCbor => ArbCmdParse::InvalidCbor,
            },
        },
    }
}

/// Parses the textual form of an `ArbCmd`: the interface identifier, a
/// period, the operation identifier, then either nothing, a period and
/// binary strings, or a colon and the textual form of an `ArbData`.
pub open spec fn parse_cmd(s: Seq<char>) -> ArbCmdParse {
    let iface = match find_char(s, '.') {
        Some(p) => s.take(p as int),
        None => s,
    };
    match id_error(iface) {
        Some(m) => ArbCmdParse::Rejected(m),
        None => match find_char(s, '.') {
            None => ArbCmdParse::Rejected(
                "expected period after interface identifier while parsing ArbCmd"@,
            ),
            Some(p) => parse_cmd_rest(iface, s.skip(p + 1 as int)),
        },
    }
}

/// The first `c` in `s` is at index `i`.
proof fn lemma_find_char_at(s: Seq<char>, c: char, i: nat)
    requires
        i < s.len(),
        s[i as int] == c,
        forall|j: int| 0 <= j < i ==> s[j] != c,
    ensures
        find_char(s, c) == Some(i),
    decreases i,
{
    if i > 0 {
        lemma_find_char_at(s.drop_first(), c, (i - 1) as nat);
    }
}

/// A command whose interface identifier holds a character other than an
/// ASCII letter, digit or `_`, such as `my-iface.op`, is refused with the
/// message naming the allowed characters, whatever follows.
pub proof fn lemma_bad_interface_refused(iface: Seq<char>, rest: Seq<char>, k: int)
    requires
        forall|j: int| 0 <= j < iface.len() ==> iface[j] != '.',
        0 <= k < iface.len(),
        !(('a' <= iface[k] && iface[k] <= 'z') || ('A' <= iface[k] && iface[k] <= 'Z') || ('0'
            <= iface[k] && iface[k] <= '9') || iface[k] == '_'),
    ensures
        parse_cmd(iface + seq!['.'] + rest) == ArbCmdParse::Rejected(
            "\""@ + iface + "\" is not a valid identifier; it contains characters outside [a-zA-Z0-9_]"@,
        ),
{
    let s = iface + seq!['.'] + rest;
    assert(s[iface.len() as int] == '.');
    assert forall|j: int| 0 <= j < iface.len() implies s[j] != '.' by {
        assert(s[j] == iface[j]);
    }
    lemma_find_char_at(s, '.', iface.len());
    assert(s.take(iface.len() as int) =~= iface);
    lemma_identifier_chars(iface);
}

/// `s` holds no `c`.
proof fn lemma_find_char_none(s: Seq<char>, c: char)
    requires
        forall|j: int| 0 <= j < s.len() ==> s[j] != c,
    ensures
        find_char(s, c) is None,
    decreases s.len(),
{
    if s.len() > 0 {
        lemma_find_char_none(s.drop_first(), c);
    }
}

/// What `find_char` finds is a `c` with none before it.
proof fn lemma_find_char_found(s: Seq<char>, c: char)
    ensures
        find_char(s, c) matches Some(i) ==> i < s.len() && s[i as int] == c && forall|j: int|
            0 <= j < i ==> s[j] != c,
        find_char(s, c) is None ==> forall|j: int| 0 <= j < s.len() ==> s[j] != c,
    decreases s.len(),
{
    if s.len() > 0 {
        lemma_find_char_found(s.drop_first(), c);
        assert forall|j: int| 1 <= j < s.len() implies s[j] == s.drop_first()[j - 1] by {}
    }
}

/// The index of the first `c` in `s`, if any.
fn find_first(s: &Vec<char>, c: char) -> (r: Option<usize>)
    ensures
        r is None <==> find_char(s@, c) is None,
        r matches Some(i) ==> find_char(s@, c) == Some(i as nat) && i < s@.len(),
{
    let mut i: usize = 0;
    while i < s.len()
        invariant
            i <= s@.len(),
            forall|j: int| 0 <= j < i ==> s@[j] != c,
        decreases s@.len() - i,
    {
        if s[i] == c {
            proof {
                lemma_find_char_at(s@, c, i as nat);
            }
            return Some(i);
        }
        i = i + 1;
    }
    proof {
        lemma_find_char_none(s@, c);
    }
    None
}

/// The characters of `s` from `lo` up to `hi`.
fn chars_between(s: &Vec<char>, lo: usize, hi: usize) -> (r: Vec<char>)
    requires
        lo <= hi <= s@.len(),
    ensures
        r@ == s@.subrange(lo as int, hi as int),
{
    let mut r: Vec<char> = Vec::new();
    let mut i: usize = lo;
    while i < hi
        invariant
            lo <= i <= hi <= s@.len(),
            r@ =~= s@.subrange(lo as int, i as int),
        decreases hi - i,
    {
        r.push(s[i]);
        i = i + 1;
    }
    r
}

/// Checks that `id` is a valid identifier and returns it as a `String`.
fn verify_id(id: &Vec<char>) -> (r: Result<String>)
    ensures
        match id_error(id@) {
            Some(m) => r is Err && r->Err_0 is InvalidArgument && r->Err_0->InvalidArgument_0@ == m,
            None => r is Ok && r->Ok_0@ == id@,
        },
{
    let mut i: usize = 0;
    let mut all_ok = true;
    while i < id.len()
        invariant
            i <= id@.len(),
            all_ok == (forall|j: int| 0 <= j < i ==> is_id_char(#[trigger] id@[j])),
        decreases id@.len() - i,
    {
        let c = id[i];
        if !(('a' <= c && c <= 'z') || ('A' <= c && c <= 'Z') || ('0' <= c && c <= '9') || c
            == '_') {
            all_ok = false;
        }
        i = i + 1;
    }
    if !all_ok {
        let mut msg: Vec<char> = Vec::new();
        msg.push('"');
        let mut idc = chars_between(id, 0, id.len());
        msg.append(&mut idc);
        push_str(
            &mut msg,
            "\" is not a valid identifier; it contains characters outside [a-zA-Z0-9_]",
        );
        proof {
            reveal_strlit("\"");
            assert(id@.subrange(0, id@.len() as int) =~= id@);
            assert(msg@ =~= "\""@ + id@
                + "\" is not a valid identifier; it contains characters outside [a-zA-Z0-9_]"@);
        }
        return Err(Error::InvalidArgument(string_from_chars(&msg)));
    }
    if id.len() == 0 {
        return Err(inv_arg("identifiers must not be empty"));
    }
    Ok(string_from_chars(id))
}

/// An interface identifier, an operation identifier and an `ArbData`
/// argument. Both identifiers are valid.
#[derive(Debug, Clone, PartialEq, Eq)]
pub struct ArbCmd {
    interface_identifier: String,
    operation_identifier: String,
    data: ArbData,
}

impl View for ArbCmd {
    type V = (Seq<char>, Seq<char>, (Seq<u8>, Seq<Seq<u8>>));

    /// The two identifiers and the data.
    closed spec fn view(&self) -> (Seq<char>, Seq<char>, (Seq<u8>, Seq<Seq<u8>>)) {
        (self.interface_identifier@, self.operation_identifier@, self.data@)
    }
}

impl ArbCmd {
    /// Constructs an `ArbCmd`; both identifiers must be valid.
    pub fn new(interface_identifier: &str, operation_identifier: &str, data: ArbData) -> (c:
        ArbCmd)
        requires
            valid_id(interface_identifier@),
            valid_id(operation_identifier@),
        ensures
            c@ == (interface_identifier@, operation_identifier@, data@),
    {
        let i = verify_id(&str_chars(interface_identifier));
        let o = verify_id(&str_chars(operation_identifier));
        match (i, o) {
            (Ok(i), Ok(o)) => ArbCmd { interface_identifier: i, operation_identifier: o, data },
            _ => {
                assert(false);
                ArbCmd {
                    interface_identifier: String::new(),
                    operation_identifier: String::new(),
                    data,
                }
            },
        }
    }

    /// Constructs an `ArbCmd`; fails when an identifier is not valid, the
    /// interface identifier being checked first.
    pub fn try_from(interface_identifier: &str, operation_identifier: &str, data: ArbData) -> (r:
        Result<ArbCmd>)
        ensures
            match (id_error(interface_identifier@), id_error(operation_identifier@)) {
                (Some(m), _) => r is Err && r->Err_0 is InvalidArgument
                    && r->Err_0->InvalidArgument_0@ == m,
                (None, Some(m)) => r is Err && r->Err_0 is InvalidArgument
                    && r->Err_0->InvalidArgument_0@ == m,
                (None, None) => r is Ok && r->Ok_0@ == (
                    interface_identifier@,
                    operation_identifier@,
                    data@,
                ),
            },
    {
        let i = verify_id(&str_chars(interface_identifier))?;
        let o = verify_id(&str_chars(operation_identifier))?;
        Ok(ArbCmd { interface_identifier: i, operation_identifier: o, data })
    }

    /// Returns the interface identifier.
    pub fn interface_identifier(&self) -> (s: &str)
        ensures
            s@ == self@.0,
    {
        self.interface_identifier.as_str()
    }

    /// Returns the operation identifier.
    pub fn operation_identifier(&self) -> (s: &str)
        ensures
            s@ == self@.1,
    {
        self.operation_identifier.as_str()
    }

    /// Returns the data.
    pub fn data(&self) -> (d: &ArbData)
        ensures
            d@ == self@.2,
    {
        &self.data
    }

    /// Returns the data for modification.
    pub fn data_mut(&mut self) -> (d: &mut ArbData)
        ensures
            d@ == old(self)@.2,
            final(self)@ == (old(self)@.0, old(self)@.1, final(d)@),
    {
        &mut self.data
    }

    /// Constructs an `ArbCmd` from its textual form:
    /// `<interface>.<operation>` for the default data,
    /// `<interface>.<operation>.<binary strings>` for data with `{}` as its
    /// object, or `<interface>.<operation>:<ArbData text>`.
    pub fn from_str(s: &str) -> (r: Result<ArbCmd>)
        ensures
            match parse_cmd(s@) {
                ArbCmdParse::Parsed(i, o, d) => r is Ok && r->Ok_0@ == (i, o, d),
                ArbCmdParse::Rejected(m) => r is Err && r->Err_0 is InvalidArgument
                    && r->Err_0->InvalidArgument_0@ == m,
                ArbCmdParse::InvalidCbor => r is Err && r->Err_0 is InvalidArgument,
            },
    {
        let chars = str_chars(s);
        proof {
            lemma_find_char_found(s@, '.');
        }
        let first = find_first(&chars, '.');
        let iface_end = match first {
            Some(p) => p,
            None => chars.len(),
        };
        let iface_chars = chars_between(&chars, 0, iface_end);
        proof {
            assert(s@.subrange(0, s@.len() as int) =~= s@);
            assert(s@.subrange(0, iface_end as int) =~= s@.take(iface_end as int));
        }
        let interface_identifier = verify_id(&iface_chars)?;
        let p = match first {
            Some(p) => p,
            None => {
                return Err(
                    inv_arg("expected period after interface identifier while parsing ArbCmd"),
                );
            },
        };
        assert(find_char(s@, '.') == Some(p as nat));
        assert(p < chars.len());
        let rest = chars_between(&chars, p + 1, chars.len());
        let ghost rs = s@.skip(p + 1 as int);
        assert(rest@ =~= rs);
        proof {
            lemma_find_char_found(rs, '.');
            lemma_find_char_found(rs, ':');
        }
        let period = find_first(&rest, '.');
        let colon = find_first(&rest, ':');
        let (op_end, complete) = match (period, colon) {
            (Some(pp), Some(cc)) => if pp < cc {
                (pp, false)
            } else {
                (cc, true)
            },
            (Some(pp), None) => (pp, false),
            (None, Some(cc)) => (cc, true),
            (None, None) => {
                let operation_identifier = verify_id(&rest)?;
                return Ok(
                    ArbCmd { interface_identifier, operation_identifier, data: ArbData::default() },
                );
            },
        };
        let op_chars = chars_between(&rest, 0, op_end);
        assert(op_chars@ =~= rs.take(op_end as int));
        let operation_identifier = verify_id(&op_chars)?;
        let tail = chars_between(&rest, op_end + 1, rest.len());
        assert(tail@ =~= rs.skip(op_end + 1 as int));
        let tail_str = string_from_chars(&tail);
        let data = if complete {
            ArbData::from_str(tail_str.as_str())?
        } else {
            ArbData::from_str_args_only(tail_str.as_str())?
        };
        Ok(ArbCmd { interface_identifier, operation_identifier, data })
    }

    /// The textual form that `from_str` reads:
    /// `<interface>.<operation>:<ArbData text>`.
    pub fn to_string(&self) -> (r: Result<String>)
        ensures
            match arb_text(self@.2) {
                Ok(t) => r is Ok && r->Ok_0@ == self@.0 + seq!['.'] + self@.1 + seq![':'] + t,
                Err(m) => r is Err && r->Err_0 is Other && r->Err_0->Other_0@ == m,
            },
    {
        let data = self.data.to_string()?;
        let mut out = str_chars(self.interface_identifier.as_str());
        out.push('.');
        push_str(&mut out, self.operation_identifier.as_str());
        out.push(':');
        push_str(&mut out, data.as_str());
        Ok(string_from_chars(&out))
    }
}

impl From<ArbCmd> for ArbData {
    /// The data of the command.
    fn from(c: ArbCmd) -> (d: ArbData)
        ensures
            d@ == c@.2,
    {
        c.data
    }
}

impl vstd::std_specs::convert::FromSpecImpl<ArbCmd> for ArbData {
    open spec fn obeys_from_spec() -> bool {
        true
    }

    closed spec fn from_spec(c: ArbCmd) -> ArbData {
        c.data
    }
}

/// A valid identifier holds neither a period nor a colon.
proof fn lemma_id_no_separators(id: Seq<char>)
    requires
        valid_id(id),
    ensures
        forall|j: int| 0 <= j < id.len() ==> id[j] != '.' && id[j] != ':',
{
    assert forall|j: int| 0 <= j < id.len() implies id[j] != '.' && id[j] != ':' by {
        assert(is_id_char(id[j]));
    }
}

/// The textual form of an `ArbCmd` parses back to it: valid identifiers,
/// then the textual form of data (JSON text that is exactly one JSON object,
/// converting to CBOR whose canonical form is `cbor`, followed by the text
/// of `args`) parse to the same identifiers, `cbor` and `args`.
pub proof fn lemma_cmd_text_roundtrip(
    iface: Seq<char>,
    oper: Seq<char>,
    json: Seq<char>,
    cbor: Seq<u8>,
    args: Seq<Seq<u8>>,
)
    requires
        valid_id(iface),
        valid_id(oper),
    ensures
        (json_object_len(json) == Ok::<nat, Seq<char>>(json.len()) && json_to_cbor(json) is Ok
            && spec_canonicalize(json_to_cbor(json)->Ok_0) == Some(cbor)) ==> parse_cmd(
            iface + seq!['.'] + oper + seq![':'] + (json + args_text(args)),
        ) == ArbCmdParse::Parsed(iface, oper, (cbor, args)),
{
    if json_object_len(json) == Ok::<nat, Seq<char>>(json.len()) && json_to_cbor(json) is Ok
        && spec_canonicalize(json_to_cbor(json)->Ok_0) == Some(cbor) {
        let data = json + args_text(args);
        let rest = oper + seq![':'] + data;
        let s = iface + seq!['.'] + rest;
        lemma_id_no_separators(iface);
        lemma_id_no_separators(oper);
        assert(s[iface.len() as int] == '.');
        assert forall|j: int| 0 <= j < iface.len() implies s[j] != '.' by {
            assert(s[j] == iface[j]);
        }
        lemma_find_char_at(s, '.', iface.len());
        assert(s.take(iface.len() as int) =~= iface);
        assert(s.skip(iface.len() + 1 as int) =~= rest);
        assert(rest[oper.len() as int] == ':');
        assert forall|j: int| 0 <= j < oper.len() implies rest[j] != '.' && rest[j] != ':' by {
            assert(rest[j] == oper[j]);
        }
        lemma_find_char_at(rest, ':', oper.len());
        lemma_find_char_found(rest, '.');
        assert(arg_mode(rest) == ArgMode::Complete(oper.len()));
        assert(rest.take(oper.len() as int) =~= oper);
        assert(rest.skip(oper.len() + 1 as int) =~= data);
        lemma_text_roundtrip(json, cbor, args);
        assert(id_error(iface) is None);
        assert(id_error(oper) is None);
        assert(s =~= iface + seq!['.'] + oper + seq![':'] + (json + args_text(args)));
    }
}

} // verus!
