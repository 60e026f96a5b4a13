//! Display names, diagnostics, and the conversion of a display name into an
//! identifier.
use vstd::prelude::*;

verus! {

/// A display name as written in the specification, with the position of its
/// string literal in the token stream.
pub struct Name {
    pub text: String,
    pub location: usize,
}

/// The three ways in which a specification can be rejected.
#[derive(Clone, Copy, Debug, PartialEq, Eq, Structural)]
pub enum ErrorKind {
    MalformedSpec,
    EmptyName,
    DuplicateName,
}

/// A diagnostic anchored at a position of the token stream.
pub struct Diagnostic {
    pub kind: ErrorKind,
    pub message: String,
    pub location: usize,
}

/// What a diagnostic says, as plain values.
pub struct DiagnosticView {
    pub kind: ErrorKind,
    pub message: Seq<char>,
    pub location: usize,
}

impl View for Diagnostic {
    type V = DiagnosticView;

    open spec fn view(&self) -> DiagnosticView {
        DiagnosticView { kind: self.kind, message: self.message@, location: self.location }
    }
}

/// The views of a sequence of diagnostics.
pub open spec fn diag_views(ds: Seq<Diagnostic>) -> Seq<DiagnosticView> {
    ds.map_values(|d: Diagnostic| d@)
}

/// Unicode's White_Space property.
pub open spec fn white_char(c: char) -> bool {
    let u = c as u32;
    (0x09 <= u && u <= 0x0d) || u == 0x20 || u == 0x85 || u == 0xa0 || u == 0x1680 || (0x2000
        <= u && u <= 0x200a) || u == 0x2028 || u == 0x2029 || u == 0x202f || u == 0x205f || u
        == 0x3000
}

/// A name that is empty once surrounding white space is trimmed.
pub open spec fn blank(s: Seq<char>) -> bool {
    forall|i: int| 0 <= i < s.len() ==> white_char(#[trigger] s[i])
}

/// The identifier made of a display name: each space becomes an underscore.
pub open spec fn underscored(s: Seq<char>) -> Seq<char> {
    Seq::new(s.len(), |i: int| if s[i] == ' ' { '_' } else { s[i] })
}

/// The message of an empty-name diagnostic for the given kind of construct.
pub open spec fn empty_name_message(construct: Seq<char>) -> Seq<char> {
    construct
        + " names cannot be empty. \n\n Hint: Try to use a descriptive name such as \"Vec can be resized\".\n"@
}

/// The diagnostic that rejects an empty name.
pub open spec fn empty_name_diag(construct: Seq<char>, name: Name) -> DiagnosticView {
    DiagnosticView {
        kind: ErrorKind::EmptyName,
        message: empty_name_message(construct),
        location: name.location,
    }
}

/// Whether `c` has Unicode's White_Space property.
pub fn is_white(c: char) -> (r: bool)
    ensures
        r == white_char(c),
{
    let u = c as u32;
    (0x09 <= u && u <= 0x0d) || u == 0x20 || u == 0x85 || u == 0xa0 || u == 0x1680 || (0x2000
        <= u && u <= 0x200a) || u == 0x2028 || u == 0x2029 || u == 0x202f || u == 0x205f || u
        == 0x3000
}

/// Whether `s` holds nothing but white space.
pub fn is_blank(s: &str) -> (r: bool)
    ensures
        r == blank(s@),
{
    let n = s.unicode_len();
    let mut i: usize = 0;
    while i < n
        invariant
            n == s@.len(),
            i <= n,
            forall|k: int| 0 <= k < i ==> white_char(#[trigger] s@[k]),
        decreases n - i,
    {
        if !is_white(s.get_char(i)) {
            return false;
        }
        i = i + 1;
    }
    true
}

/// Replaces every space of `s` with an underscore.
pub fn underscore_spaces(s: &str) -> (r: String)
    ensures
        r@ == underscored(s@),
{
    let n = s.unicode_len();
    let mut out = String::new();
    let mut start: usize = 0;
    let mut i: usize = 0;
    proof {
        reveal_strlit("_");
    }
    while i < n
        invariant
            n == s@.len(),
            start <= i <= n,
            out@ == underscored(s@.subrange(0, start as int)),
            forall|k: int| start <= k < i ==> #[trigger] s@[k] != ' ',
            "_"@ == seq!['_'],
        decreases n - i,
    {
        if s.get_char(i) == ' ' {
            let piece = s.substring_char(start, i);
            out.append(piece);
            out.append("_");
            assert(out@ =~= underscored(s@.subrange(0, i + 1)));
            start = i + 1;
        }
        i = i + 1;
    }
    let piece = s.substring_char(start, n);
    out.append(piece);
    assert(s@.subrange(0, n as int) =~= s@);
    assert(out@ =~= underscored(s@));
    out
}

/// Turns a display name into an identifier, or rejects it when it is blank;
/// `construct_name` names the kind of construct for the diagnostic.
pub fn name_as_ident2(construct_name: &str, name: &Name) -> (r: Result<String, Diagnostic>)
    ensures
        r is Err <==> blank(name.text@),
        r matches Ok(id) ==> id@ == underscored(name.text@),
        r matches Err(d) ==> d@ == empty_name_diag(construct_name@, *name),
{
    if is_blank(name.text.as_str()) {
        let mut message = String::from_str(construct_name);
        message.append(
            " names cannot be empty. \n\n Hint: Try to use a descriptive name such as \"Vec can be resized\".\n",
        );
        return Err(Diagnostic { kind: ErrorKind::EmptyName, message, location: name.location });
    }
    Ok(underscore_spaces(name.text.as_str()))
}

} // verus!
