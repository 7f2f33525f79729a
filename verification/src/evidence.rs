//! Where an edge of the graph was observed.

use crate::domain::{optional_text, provenance_name_text, provenance_names_distinct, Provenance};
use crate::dto::copy_text;
use crate::ids::{or_else, repository, repository_of};
use crate::sorted::texts;
use crate::text::{chars_lt, chars_lt_behind, chars_lt_extends, chars_lt_irreflexive, chars_lt_transitive, digit, same};
use vstd::prelude::*;

verus! {

/// A place in a file.
#[derive(Clone, Copy, PartialEq, Eq, Structural, Debug)]
pub struct SourcePosition {
    pub line: u32,
    pub character: u32,
}

/// A stretch of a file.
#[derive(Clone, Copy, PartialEq, Eq, Structural, Debug)]
pub struct SourceRange {
    pub start: SourcePosition,
    pub end: SourcePosition,
}

/// What the stored text of an evidence says, once decoded.
#[derive(Debug)]
pub struct DecodedEvidence {
    pub path: Option<String>,
    pub line: Option<u32>,
    pub range: Option<SourceRange>,
    pub detail: Option<String>,
    pub contexts: Vec<String>,
}

/// The content of a [`DecodedEvidence`].
pub ghost struct DecodedModel {
    pub path: Option<Seq<char>>,
    pub line: Option<u32>,
    pub range: Option<SourceRange>,
    pub detail: Option<Seq<char>>,
    pub contexts: Seq<Seq<char>>,
}

impl View for DecodedEvidence {
    type V = DecodedModel;

    open spec fn view(&self) -> DecodedModel {
        DecodedModel {
            path: optional_text(self.path),
            line: self.line,
            range: self.range,
            detail: optional_text(self.detail),
            contexts: texts(self.contexts@),
        }
    }
}

/// How an edge was established.
#[derive(Clone, Copy, PartialEq, Eq, Structural, Debug)]
pub enum EvidenceKind {
    Ast,
    Compiler,
    Inference,
    Descriptor,
    Generated,
    Unknown,
}

/// Where and how an edge was observed.
#[derive(Debug)]
pub struct EvidenceRef {
    pub source_kind: EvidenceKind,
    pub repository: Option<String>,
    pub path: Option<String>,
    pub line: Option<u32>,
    pub range: Option<SourceRange>,
    pub detail: Option<String>,
    pub contexts: Vec<String>,
}

/// The content of an [`EvidenceRef`].
pub ghost struct EvidenceModel {
    pub source_kind: EvidenceKind,
    pub repository: Option<Seq<char>>,
    pub path: Option<Seq<char>>,
    pub line: Option<u32>,
    pub range: Option<SourceRange>,
    pub detail: Option<Seq<char>>,
    pub contexts: Seq<Seq<char>>,
}

impl View for EvidenceRef {
    type V = EvidenceModel;

    open spec fn view(&self) -> EvidenceModel {
        EvidenceModel {
            source_kind: self.source_kind,
            repository: optional_text(self.repository),
            path: optional_text(self.path),
            line: self.line,
            range: self.range,
            detail: optional_text(self.detail),
            contexts: texts(self.contexts@),
        }
    }
}

/// How an edge of a provenance was established.
pub open spec fn kind_of_provenance(provenance: Seq<char>) -> EvidenceKind {
    if provenance == "ast"@ {
        EvidenceKind::Ast
    } else if provenance == "compiler"@ {
        EvidenceKind::Compiler
    } else if provenance == "unique_name_heuristic"@ {
        EvidenceKind::Inference
    } else if provenance == "descriptor"@ {
        EvidenceKind::Descriptor
    } else if provenance == "generated"@ {
        EvidenceKind::Generated
    } else {
        EvidenceKind::Unknown
    }
}

/// What a stored evidence comes to. Text that names no path is the path itself where it comes
/// from a descriptor, and a detail otherwise.
pub open spec fn evidence_for(
    from: Seq<char>,
    to: Seq<char>,
    evidence: Seq<char>,
    provenance: Seq<char>,
    decoded: DecodedModel,
) -> EvidenceModel {
    let descriptor_path = provenance == "descriptor"@ && decoded.path is None;
    let path = if descriptor_path {
        Some(evidence)
    } else {
        decoded.path
    };
    EvidenceModel {
        source_kind: kind_of_provenance(provenance),
        repository: or_else(repository_of(from), repository_of(to)),
        path,
        line: decoded.line,
        range: decoded.range,
        detail: if provenance == "unique_name_heuristic"@ {
            Some(provenance)
        } else if descriptor_path {
            None
        } else if decoded.detail is Some {
            decoded.detail
        } else if path is Some {
            None
        } else {
            Some(evidence)
        },
        contexts: decoded.contexts,
    }
}

/// A copy of a list of texts.
pub fn copy_texts(list: &Vec<String>) -> (r: Vec<String>)
    ensures
        texts(r@) == texts(list@),
{
    let mut out: Vec<String> = Vec::new();
    let mut i: usize = 0;
    while i < list.len()
        invariant
            i <= list@.len(),
            texts(out@) =~= texts(list@).take(i as int),
        decreases list@.len() - i,
    {
        let ghost before = out@;
        out.push(list[i].clone());
        assert(texts(out@) =~= texts(before).push(list@[i as int]@));
        assert(texts(list@).take(i as int + 1) =~= texts(list@).take(i as int).push(list@[i as int]@));
        i = i + 1;
    }
    assert(texts(list@).take(list@.len() as int) =~= texts(list@));
    out
}

/// What a stored evidence comes to.
pub fn evidence_ref(from: &str, to: &str, evidence: &str, provenance: &str, decoded: &DecodedEvidence) -> (r: EvidenceRef)
    ensures
        r@ == evidence_for(from@, to@, evidence@, provenance@, decoded@),
{
    let heuristic: bool = same(provenance, "unique_name_heuristic");
    let descriptor: bool = same(provenance, "descriptor");
    let descriptor_path: bool = descriptor && decoded.path.is_none();
    let path: Option<String> = if descriptor_path {
        Some(evidence.to_owned())
    } else {
        copy_text(&decoded.path)
    };
    let source_kind: EvidenceKind = if same(provenance, "ast") {
        EvidenceKind::Ast
    } else if same(provenance, "compiler") {
        EvidenceKind::Compiler
    } else if heuristic {
        EvidenceKind::Inference
    } else if descriptor {
        EvidenceKind::Descriptor
    } else if same(provenance, "generated") {
        EvidenceKind::Generated
    } else {
        EvidenceKind::Unknown
    };
    let owner: Option<String> = match repository(from) {
        Some(owner) => Some(owner),
        None => repository(to),
    };
    let detail: Option<String> = if heuristic {
        Some(provenance.to_owned())
    } else if descriptor_path {
        None
    } else if decoded.detail.is_some() {
        copy_text(&decoded.detail)
    } else if path.is_some() {
        None
    } else {
        Some(evidence.to_owned())
    };
    EvidenceRef {
        source_kind,
        repository: owner,
        path,
        line: decoded.line,
        range: decoded.range,
        detail,
        contexts: copy_texts(&decoded.contexts),
    }
}

/// A number in decimal notation of fixed width, so that texts sort as the numbers do.
pub open spec fn fixed(n: nat, width: nat) -> Seq<char>
    decreases width,
{
    if width == 0 {
        Seq::empty()
    } else {
        fixed(n / 10, (width - 1) as nat) + digit(n % 10)
    }
}

/// Ten to a power.
pub open spec fn ten_to(width: nat) -> nat
    decreases width,
{
    if width == 0 {
        1
    } else {
        10 * ten_to((width - 1) as nat)
    }
}

/// The fixed notation tells numbers apart.
pub proof fn fixed_injective(a: nat, b: nat, width: nat)
    requires
        a < ten_to(width),
        b < ten_to(width),
        fixed(a, width) == fixed(b, width),
    ensures
        a == b,
    decreases width,
{
    if width > 0 {
        let w = (width - 1) as nat;
        reveal_strlit("0123456789");
        fixed_length(a / 10, w);
        fixed_length(b / 10, w);
        let x = fixed(a, width);
        let y = fixed(b, width);
        assert(x.take(w as int) =~= fixed(a / 10, w));
        assert(y.take(w as int) =~= fixed(b / 10, w));
        assert(x[w as int] == digit(a % 10)[0]);
        assert(y[w as int] == digit(b % 10)[0]);
        fixed_injective(a / 10, b / 10, w);
        let d = (a % 10) as int;
        let e = (b % 10) as int;
        assert("0123456789"@[d] == "0123456789"@[e]);
        assert(d == e);
    }
}

/// The fixed notation sorts as the numbers do.
pub proof fn fixed_ascends(a: nat, b: nat, width: nat)
    requires
        a < b < ten_to(width),
    ensures
        chars_lt(fixed(a, width), fixed(b, width)),
    decreases width,
{
    let w = (width - 1) as nat;
    reveal_strlit("0123456789");
    fixed_length(a / 10, w);
    fixed_length(b / 10, w);
    if a / 10 < b / 10 {
        fixed_ascends(a / 10, b / 10, w);
        chars_lt_extends(fixed(a / 10, w), fixed(b / 10, w), digit(a % 10), digit(b % 10));
    } else {
        assert(a / 10 == b / 10);
        let d = (a % 10) as int;
        let e = (b % 10) as int;
        assert(d < e);
        assert("0123456789"@[d] < "0123456789"@[e]);
        assert(digit(a % 10)[0] < digit(b % 10)[0]);
        chars_lt_behind(fixed(a / 10, w), digit(a % 10), digit(b % 10));
    }
}

/// The order of fixed notations is the order of the numbers.
pub proof fn fixed_order(a: nat, b: nat, width: nat)
    requires
        a < ten_to(width),
        b < ten_to(width),
        chars_lt(fixed(a, width), fixed(b, width)),
    ensures
        a < b,
{
    chars_lt_irreflexive(fixed(a, width));
    if b < a {
        fixed_ascends(b, a, width);
        chars_lt_transitive(fixed(a, width), fixed(b, width), fixed(a, width));
    }
}

/// The fixed notation has its width.
pub proof fn fixed_length(n: nat, width: nat)
    ensures
        fixed(n, width).len() == width,
    decreases width,
{
    if width > 0 {
        reveal_strlit("0123456789");
        fixed_length(n / 10, (width - 1) as nat);
    }
}

/// A number in decimal notation of fixed width.
pub fn fixed_text(n: u32, width: u8) -> (r: String)
    ensures
        r@ == fixed(n as nat, width as nat),
    decreases width,
{
    if width == 0 {
        String::new()
    } else {
        proof {
            reveal_strlit("0123456789");
        }
        let mut out: String = fixed_text(n / 10, width - 1);
        let last: usize = (n % 10) as usize;
        out.append("0123456789".substring_char(last, last + 1));
        out
    }
}

/// A text that sorts behind every absent one.
pub open spec fn optional_key(text: Option<Seq<char>>) -> Seq<char> {
    match text {
        Some(text) => "+"@ + text,
        None => Seq::empty(),
    }
}

/// A number that sorts behind an absent one.
pub open spec fn number_key(n: Option<u32>) -> Seq<char> {
    match n {
        Some(n) => fixed(n as nat, 10),
        None => Seq::empty(),
    }
}

/// A range that sorts behind an absent one.
pub open spec fn range_key(range: Option<SourceRange>) -> Seq<char> {
    match range {
        Some(range) => fixed(range.start.line as nat, 10) + fixed(range.start.character as nat, 10) + fixed(
            range.end.line as nat,
            10,
        ) + fixed(range.end.character as nat, 10),
        None => Seq::empty(),
    }
}

/// The place of a kind among the kinds.
pub open spec fn kind_key(kind: EvidenceKind) -> Seq<char> {
    match kind {
        EvidenceKind::Ast => digit(0),
        EvidenceKind::Compiler => digit(1),
        EvidenceKind::Inference => digit(2),
        EvidenceKind::Descriptor => digit(3),
        EvidenceKind::Generated => digit(4),
        EvidenceKind::Unknown => digit(5),
    }
}

/// What evidence sorts by: kind, repository, path, line, range, detail, contexts.
pub open spec fn evidence_key(evidence: EvidenceModel) -> Seq<Seq<char>> {
    seq![
        kind_key(evidence.source_kind),
        optional_key(evidence.repository),
        optional_key(evidence.path),
        number_key(evidence.line),
        range_key(evidence.range),
        optional_key(evidence.detail),
    ] + evidence.contexts
}

proof fn optional_key_injective(a: Option<Seq<char>>, b: Option<Seq<char>>)
    requires
        optional_key(a) == optional_key(b),
    ensures
        a == b,
{
    reveal_strlit("+");
    assert("+"@.len() == 1);
    assert(a is Some ==> optional_key(a).len() == 1 + a->0.len());
    assert(b is Some ==> optional_key(b).len() == 1 + b->0.len());
    if a is Some && b is Some {
        assert(optional_key(a).skip(1) =~= a->0);
        assert(optional_key(b).skip(1) =~= b->0);
    }
}

/// The fixed notation of ten digits holds every 32-bit number.
pub proof fn ten_digits()
    ensures
        ten_to(10) == 10_000_000_000,
{
    reveal_with_fuel(ten_to, 11);
}

proof fn number_key_injective(a: Option<u32>, b: Option<u32>)
    requires
        number_key(a) == number_key(b),
    ensures
        a == b,
{
    ten_digits();
    if a is Some {
        fixed_length(a->0 as nat, 10);
    }
    if b is Some {
        fixed_length(b->0 as nat, 10);
    }
    if a is Some && b is Some {
        fixed_injective(a->0 as nat, b->0 as nat, 10);
    }
}

proof fn range_key_injective(a: Option<SourceRange>, b: Option<SourceRange>)
    requires
        range_key(a) == range_key(b),
    ensures
        a == b,
{
    ten_digits();
    if a is Some {
        fixed_length(a->0.start.line as nat, 10);
        fixed_length(a->0.start.character as nat, 10);
        fixed_length(a->0.end.line as nat, 10);
        fixed_length(a->0.end.character as nat, 10);
    }
    if b is Some {
        fixed_length(b->0.start.line as nat, 10);
        fixed_length(b->0.start.character as nat, 10);
        fixed_length(b->0.end.line as nat, 10);
        fixed_length(b->0.end.character as nat, 10);
    }
    assert(a is Some ==> range_key(a).len() == 40);
    assert(b is Some ==> range_key(b).len() == 40);
    if a is Some && b is Some {
        let x = range_key(a);
        let y = range_key(b);
        assert(x.subrange(0, 10) =~= fixed(a->0.start.line as nat, 10));
        assert(y.subrange(0, 10) =~= fixed(b->0.start.line as nat, 10));
        assert(x.subrange(10, 20) =~= fixed(a->0.start.character as nat, 10));
        assert(y.subrange(10, 20) =~= fixed(b->0.start.character as nat, 10));
        assert(x.subrange(20, 30) =~= fixed(a->0.end.line as nat, 10));
        assert(y.subrange(20, 30) =~= fixed(b->0.end.line as nat, 10));
        assert(x.subrange(30, 40) =~= fixed(a->0.end.character as nat, 10));
        assert(y.subrange(30, 40) =~= fixed(b->0.end.character as nat, 10));
        fixed_injective(a->0.start.line as nat, b->0.start.line as nat, 10);
        fixed_injective(a->0.start.character as nat, b->0.start.character as nat, 10);
        fixed_injective(a->0.end.line as nat, b->0.end.line as nat, 10);
        fixed_injective(a->0.end.character as nat, b->0.end.character as nat, 10);
    }
}

/// Evidence that sorts the same is the same, so that a set by these keys drops nothing but
/// repetitions.
pub proof fn evidence_key_injective(a: EvidenceModel, b: EvidenceModel)
    requires
        evidence_key(a) == evidence_key(b),
    ensures
        a == b,
{
    let x = evidence_key(a);
    let y = evidence_key(b);
    assert(x[0] == y[0] && x[1] == y[1] && x[2] == y[2] && x[3] == y[3] && x[4] == y[4] && x[5] == y[5]);
    reveal_strlit("0123456789");
    assert(kind_key(a.source_kind)[0] == kind_key(b.source_kind)[0]);
    optional_key_injective(a.repository, b.repository);
    optional_key_injective(a.path, b.path);
    number_key_injective(a.line, b.line);
    range_key_injective(a.range, b.range);
    optional_key_injective(a.detail, b.detail);
    assert(x.skip(6) =~= a.contexts);
    assert(y.skip(6) =~= b.contexts);
}

fn optional_part(text: &Option<String>) -> (r: String)
    ensures
        r@ == optional_key(optional_text(*text)),
{
    match text {
        Some(s) => {
            let mut out: String = "+".to_owned();
            out.append(s.as_str());
            out
        },
        None => String::new(),
    }
}

fn digit_text(d: usize) -> (r: String)
    requires
        d < 10,
    ensures
        r@ == digit(d as nat),
{
    proof {
        reveal_strlit("0123456789");
    }
    "0123456789".substring_char(d, d + 1).to_owned()
}

impl EvidenceRef {
    /// What the evidence sorts by.
    pub fn sort_key(&self) -> (r: Vec<String>)
        ensures
            texts(r@) == evidence_key(self@),
    {
        let mut key: Vec<String> = Vec::new();
        key.push(match self.source_kind {
            EvidenceKind::Ast => digit_text(0),
            EvidenceKind::Compiler => digit_text(1),
            EvidenceKind::Inference => digit_text(2),
            EvidenceKind::Descriptor => digit_text(3),
            EvidenceKind::Generated => digit_text(4),
            EvidenceKind::Unknown => digit_text(5),
        });
        key.push(optional_part(&self.repository));
        key.push(optional_part(&self.path));
        key.push(match self.line {
            Some(line) => fixed_text(line, 10),
            None => String::new(),
        });
        key.push(match self.range {
            Some(range) => {
                let mut out: String = fixed_text(range.start.line, 10);
                out.append(fixed_text(range.start.character, 10).as_str());
                out.append(fixed_text(range.end.line, 10).as_str());
                out.append(fixed_text(range.end.character, 10).as_str());
                out
            },
            None => String::new(),
        });
        key.push(optional_part(&self.detail));
        let mut contexts: Vec<String> = copy_texts(&self.contexts);
        let ghost head = key@;
        let ghost tail = contexts@;
        key.append(&mut contexts);
        proof {
            assert(texts(key@) =~= texts(head) + texts(tail));
            assert(texts(head) =~= seq![
                kind_key(self@.source_kind),
                optional_key(self@.repository),
                optional_key(self@.path),
                number_key(self@.line),
                range_key(self@.range),
                optional_key(self@.detail),
            ]);
        }
        key
    }
}

/// Evidence belongs to the repository that its source lies in, or else to that of its target. It
/// keeps what was decoded of it; and stored text of which nothing was decoded is not lost: it is
/// the path where it comes from a descriptor, and the detail otherwise.
pub proof fn evidence_keeps_what_is_stored(from: Seq<char>, to: Seq<char>, evidence: Seq<char>, provenance: Provenance, decoded: DecodedModel)
    ensures
        ({
            let kept = evidence_for(from, to, evidence, provenance_name_text(provenance), decoded);
            &&& repository_of(from) is Some ==> kept.repository == repository_of(from)
            &&& repository_of(from) is None ==> kept.repository == repository_of(to)
            &&& kept.line == decoded.line && kept.range == decoded.range && kept.contexts == decoded.contexts
            &&& decoded.path is Some ==> kept.path == decoded.path
            &&& decoded.detail is Some && provenance != Provenance::UniqueNameHeuristic && (decoded.path is Some || provenance
                != Provenance::Descriptor) ==> kept.detail == decoded.detail
            &&& decoded.path is None && provenance == Provenance::Descriptor ==> kept.path == Some(evidence) && kept.detail is None
            &&& decoded.path is None && decoded.detail is None && provenance != Provenance::Descriptor && provenance
                != Provenance::UniqueNameHeuristic ==> kept.path is None && kept.detail == Some(evidence)
            &&& provenance == Provenance::UniqueNameHeuristic ==> kept.detail == Some("unique_name_heuristic"@)
        }),
{
    provenances_have_kinds(provenance);
}

proof fn provenances_have_kinds(provenance: Provenance)
    ensures
        provenance_name_text(provenance) == "descriptor"@ <==> provenance == Provenance::Descriptor,
        provenance_name_text(provenance) == "unique_name_heuristic"@ <==> provenance == Provenance::UniqueNameHeuristic,
        kind_of_provenance(provenance_name_text(provenance)) == (match provenance {
            Provenance::Ast => EvidenceKind::Ast,
            Provenance::Compiler => EvidenceKind::Compiler,
            Provenance::Descriptor => EvidenceKind::Descriptor,
            Provenance::Generated => EvidenceKind::Generated,
            Provenance::UniqueNameHeuristic => EvidenceKind::Inference,
        }),
{
    assert(provenance_name_text(Provenance::Ast) == "ast"@);
    assert(provenance_name_text(Provenance::Compiler) == "compiler"@);
    assert(provenance_name_text(Provenance::Descriptor) == "descriptor"@);
    assert(provenance_name_text(Provenance::Generated) == "generated"@);
    assert(provenance_name_text(Provenance::UniqueNameHeuristic) == "unique_name_heuristic"@);
    if provenance_name_text(provenance) == "ast"@ {
        provenance_names_distinct(provenance, Provenance::Ast);
    }
    if provenance_name_text(provenance) == "compiler"@ {
        provenance_names_distinct(provenance, Provenance::Compiler);
    }
    if provenance_name_text(provenance) == "descriptor"@ {
        provenance_names_distinct(provenance, Provenance::Descriptor);
    }
    if provenance_name_text(provenance) == "generated"@ {
        provenance_names_distinct(provenance, Provenance::Generated);
    }
    if provenance_name_text(provenance) == "unique_name_heuristic"@ {
        provenance_names_distinct(provenance, Provenance::UniqueNameHeuristic);
    }
}

/// The kind of evidence tells the provenance of what is stored.
pub proof fn kinds_of_evidence_tell_provenances_apart(a: Provenance, b: Provenance)
    requires
        kind_of_provenance(provenance_name_text(a)) == kind_of_provenance(provenance_name_text(b)),
    ensures
        a == b,
        kind_of_provenance(provenance_name_text(a)) != EvidenceKind::Unknown,
{
    provenances_have_kinds(a);
    provenances_have_kinds(b);
}

} // verus!
