use vstd::prelude::*;
use vstd::string::StrSliceExecFns;

use crate::kinds::{all_kinds, OntologyError, OutputKind};

verus! {

/// The languages the registry knows.  Each one is registered with exactly
/// one rule set, one scorer model and one example corpus; adding a
/// language is a registration, nothing else changes.
#[derive(Copy, Clone, Debug, PartialEq, Eq, Structural)]
pub enum Lang {
    EN,
}

/// Size of a language's registered rule set: how many grammar rules it
/// holds and how many distinct text patterns those rules match.  The
/// matching engine reports both; the facade passes them through.
#[derive(Copy, Clone, Debug, PartialEq, Eq, Structural)]
pub struct RuleSetInfo {
    pub num_rules: usize,
    pub num_text_patterns: usize,
}

/// One entry of a language's example corpus: a text and the output kind
/// its best parse is expected to resolve into.  The corpus feeds the
/// external training procedure and evaluation runs.
#[derive(Clone, Debug)]
pub struct Example {
    pub text: String,
    pub expected_kind: OutputKind,
}

/// An identifier names the English registry entry when it is one of the
/// two letters "e"/"E" then "n"/"N": lookup is case-insensitive.
pub open spec fn spec_is_en_ident(s: Seq<char>) -> bool {
    s.len() == 2 && (s[0] == 'e' || s[0] == 'E') && (s[1] == 'n' || s[1] == 'N')
}

pub open spec fn spec_rules(lang: Lang) -> RuleSetInfo {
    match lang {
        Lang::EN => RuleSetInfo { num_rules: 78, num_text_patterns: 126 },
    }
}

impl Lang {
    /// Every registered language.
    pub fn all() -> (r: Vec<Lang>)
        ensures
            r@ == seq![Lang::EN],
    {
        let r: Vec<Lang> = vec![Lang::EN];
        proof {
            assert(r@ =~= seq![Lang::EN]);
        }
        r
    }

    /// Look a language up by its identifier, case-insensitively.  Exactly
    /// the unregistered identifiers are answered with the unknown-language
    /// configuration error; nothing ever falls back to a default.
    pub fn from_ident(ident: &str) -> (r: Result<Lang, OntologyError>)
        ensures
            r is Ok <==> spec_is_en_ident(ident@),
            r is Ok ==> r.unwrap() == Lang::EN,
            !spec_is_en_ident(ident@) ==> r == Err::<Lang, OntologyError>(
                OntologyError::UnknownLanguage,
            ),
    {
        if ident.unicode_len() == 2 {
            let c0 = ident.get_char(0);
            let c1 = ident.get_char(1);
            if (c0 == 'e' || c0 == 'E') && (c1 == 'n' || c1 == 'N') {
                return Ok(Lang::EN);
            }
        }
        Err(OntologyError::UnknownLanguage)
    }

    /// The canonical identifier of the language.
    pub fn ident(&self) -> (r: String)
        ensures
            r@ == "EN"@,
    {
        "EN".to_owned()
    }
}

/// Rules registered for a language.  A registered language always has its
/// rule set; the unknown-language error arises one step earlier, at
/// identifier lookup.
pub fn rules(lang: Lang) -> (r: Result<RuleSetInfo, OntologyError>)
    ensures
        r == Ok::<RuleSetInfo, OntologyError>(spec_rules(lang)),
{
    match lang {
        Lang::EN => Ok(RuleSetInfo { num_rules: 78, num_text_patterns: 126 }),
    }
}

/// The output kinds a language's grammar can produce.  The English grammar
/// covers every kind, in the canonical order.
pub fn dims(lang: Lang) -> (r: Vec<OutputKind>)
    ensures
        r@ == all_kinds(),
{
    match lang {
        Lang::EN => OutputKind::all(),
    }
}

/// The example corpus registered for a language.
pub fn examples(lang: Lang) -> (r: Vec<Example>)
    ensures
        r@.len() == 2,
        r@[0].text@ == "twenty-one"@,
        r@[0].expected_kind == OutputKind::Number,
        r@[1].text@ == "in three days"@,
        r@[1].expected_kind == OutputKind::Time,
{
    match lang {
        Lang::EN => {
            let mut r: Vec<Example> = Vec::new();
            r.push(Example { text: "twenty-one".to_owned(), expected_kind: OutputKind::Number });
            r.push(Example { text: "in three days".to_owned(), expected_kind: OutputKind::Time });
            r
        },
    }
}

} // verus!
