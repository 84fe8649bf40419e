//! The rules that a parsed message is validated against, and their defaults.
use vstd::prelude::*;

verus! {

/// The characters of each string.
pub open spec fn views(v: Seq<String>) -> Seq<Seq<char>> {
    v.map_values(|s: String| s@)
}

/// Which commit types are accepted, and whether one is needed.
#[derive(Debug)]
pub struct TopicRules {
    pub allowed: Vec<String>,
    pub required: bool,
}

/// Which scopes are accepted, and whether one is needed.
#[derive(Debug)]
pub struct ScopeRules {
    pub allowed: Vec<String>,
    pub required: bool,
}

/// Limits on the description.
#[derive(Debug)]
pub struct DescriptionRules {
    pub max_length: u32,
    pub space_after_colon: bool,
    pub required: bool,
}

/// Limits on the body.
#[derive(Debug)]
pub struct BodyRules {
    pub max_length: u32,
    pub min_length: u32,
    pub required: bool,
}

/// Limits on the trailers.
#[derive(Debug)]
pub struct FooterRules {
    pub allow_multi_line: bool,
}

/// The rules a parsed message is checked against.
#[derive(Debug)]
pub struct ValidationRules {
    pub topic: TopicRules,
    pub scope: ScopeRules,
    pub description: DescriptionRules,
    pub body: BodyRules,
    pub footers: FooterRules,
}

impl TopicRules {
    pub open spec fn is_default(&self) -> bool {
        &&& views(self.allowed@) == seq![
            "chore"@,
            "feat"@,
            "fix"@,
            "refactor"@,
            "test"@,
            "docs"@,
        ]
        &&& self.required
    }
}

impl ScopeRules {
    pub open spec fn is_default(&self) -> bool {
        &&& views(self.allowed@) == seq!["api"@, "cli"@, "rules"@, "parsing"@, "lexing"@]
        &&& !self.required
    }
}

impl DescriptionRules {
    pub open spec fn is_default(&self) -> bool {
        &&& self.max_length == 120
        &&& self.space_after_colon
        &&& self.required
    }
}

impl BodyRules {
    pub open spec fn is_default(&self) -> bool {
        &&& self.max_length == 350
        &&& self.min_length == 20
        &&& !self.required
    }
}

impl FooterRules {
    pub open spec fn is_default(&self) -> bool {
        self.allow_multi_line
    }
}

impl ValidationRules {
    /// The rules used when none are configured.
    pub open spec fn is_default(&self) -> bool {
        &&& self.topic.is_default()
        &&& self.scope.is_default()
        &&& self.description.is_default()
        &&& self.body.is_default()
        &&& self.footers.is_default()
    }
}

impl Default for TopicRules {
    fn default() -> (r: Self)
        ensures
            r.is_default(),
    {
        let allowed = vec![
            String::from_str("chore"),
            String::from_str("feat"),
            String::from_str("fix"),
            String::from_str("refactor"),
            String::from_str("test"),
            String::from_str("docs"),
        ];
        proof {
            assert(views(allowed@) =~= seq![
                "chore"@,
                "feat"@,
                "fix"@,
                "refactor"@,
                "test"@,
                "docs"@,
            ]);
        }
        TopicRules { allowed, required: true }
    }
}

impl Default for ScopeRules {
    fn default() -> (r: Self)
        ensures
            r.is_default(),
    {
        let allowed = vec![
            String::from_str("api"),
            String::from_str("cli"),
            String::from_str("rules"),
            String::from_str("parsing"),
            String::from_str("lexing"),
        ];
        proof {
            assert(views(allowed@) =~= seq!["api"@, "cli"@, "rules"@, "parsing"@, "lexing"@]);
        }
        ScopeRules { allowed, required: false }
    }
}

impl Default for DescriptionRules {
    fn default() -> (r: Self)
        ensures
            r.is_default(),
    {
        DescriptionRules { max_length: 120, space_after_colon: true, required: true }
    }
}

impl Default for BodyRules {
    fn default() -> (r: Self)
        ensures
            r.is_default(),
    {
        BodyRules { required: false, min_length: 20, max_length: 350 }
    }
}

impl Default for FooterRules {
    fn default() -> (r: Self)
        ensures
            r.is_default(),
    {
        FooterRules { allow_multi_line: true }
    }
}

impl Default for ValidationRules {
    fn default() -> (r: Self)
        ensures
            r.is_default(),
    {
        ValidationRules {
            topic: TopicRules::default(),
            scope: ScopeRules::default(),
            description: DescriptionRules::default(),
            body: BodyRules::default(),
            footers: FooterRules::default(),
        }
    }
}

/// Default rules are always the same: topic required, scope optional, description required
/// and at most 120 long, body optional and 20 to 350 long, trailers over several lines allowed,
/// with the same lists of accepted types and scopes.
pub proof fn lemma_default_rules_agree(a: ValidationRules, b: ValidationRules)
    requires
        a.is_default(),
        b.is_default(),
    ensures
        views(a.topic.allowed@) == views(b.topic.allowed@),
        a.topic.required && b.topic.required,
        views(a.scope.allowed@) == views(b.scope.allowed@),
        !a.scope.required && !b.scope.required,
        a.description == b.description,
        a.description.max_length == 120,
        a.description.required,
        a.body == b.body,
        !a.body.required,
        a.body.min_length == 20 && a.body.max_length == 350,
        a.footers == b.footers,
        a.footers.allow_multi_line,
{
}

} // verus!
