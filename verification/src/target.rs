//! Targets: a scope paired with a task identifier, written `project:task`,
//! `^:task`, `~:task`, `:task` or `#tag:task`. Parsing and formatting are
//! inverse to one another on valid targets.
use vstd::prelude::*;

use crate::ids::{valid_id, is_id_char, is_id_start_char, check_id_chars, str_eq, Id};

verus! {

/// The scope half of a target.
pub enum TargetScope {
    /// `:task` — select in every project; legal in selection only.
    All,
    /// `^:task` — the task in each dependency project.
    Deps,
    /// `~:task` — the task in the owning project.
    OwnSelf,
    /// `id:task` — the task in a named project.
    Project(Id),
    /// `#tag:task` — the task in every project carrying a tag; selection only.
    Tag(Id),
}

/// Mathematical form of a scope.
pub enum ScopeView {
    All,
    Deps,
    OwnSelf,
    Project(Seq<char>),
    Tag(Seq<char>),
}

/// Mathematical form of a target.
pub struct TargetView {
    pub scope: ScopeView,
    pub task_id: Seq<char>,
}

impl View for TargetScope {
    type V = ScopeView;

    open spec fn view(&self) -> ScopeView {
        match self {
            TargetScope::All => ScopeView::All,
            TargetScope::Deps => ScopeView::Deps,
            TargetScope::OwnSelf => ScopeView::OwnSelf,
            TargetScope::Project(id) => ScopeView::Project(id@),
            TargetScope::Tag(id) => ScopeView::Tag(id@),
        }
    }
}

/// A parsed target.
pub struct Target {
    pub scope: TargetScope,
    pub task_id: Id,
}

impl View for Target {
    type V = TargetView;

    open spec fn view(&self) -> TargetView {
        TargetView { scope: self.scope@, task_id: self.task_id@ }
    }
}

/// A target whose identifiers are all well formed.
pub open spec fn valid_target(t: TargetView) -> bool {
    &&& valid_id(t.task_id)
    &&& match t.scope {
        ScopeView::All => true,
        ScopeView::Deps => true,
        ScopeView::OwnSelf => true,
        ScopeView::Project(p) => valid_id(p),
        ScopeView::Tag(g) => valid_id(g),
    }
}

/// Raised when a string is not a well-formed target.
#[derive(Debug)]
pub enum TargetError {
    InvalidFormat,
}

/// The canonical string form of a target.
pub open spec fn spec_format(t: TargetView) -> Seq<char> {
    match t.scope {
        ScopeView::All => seq![':'] + t.task_id,
        ScopeView::Deps => seq!['^', ':'] + t.task_id,
        ScopeView::OwnSelf => seq!['~', ':'] + t.task_id,
        ScopeView::Project(p) => p + seq![':'] + t.task_id,
        ScopeView::Tag(g) => seq!['#'] + g + seq![':'] + t.task_id,
    }
}

/// Index of the first colon of a string, or -1 where there is none.
pub open spec fn first_colon(s: Seq<char>) -> int
    decreases s.len(),
{
    if s.len() == 0 {
        -1
    } else if s[0] == ':' {
        0
    } else {
        let r = first_colon(s.drop_first());
        if r == -1 {
            -1
        } else {
            r + 1
        }
    }
}

/// What parsing a string yields: the scope read from before the first colon
/// and the task identifier after it, or nothing where either is malformed.
pub open spec fn spec_parse(s: Seq<char>) -> Option<TargetView> {
    let c = first_colon(s);
    if c < 0 {
        Option::None
    } else {
        let head = s.take(c);
        let task = s.skip(c + 1);
        if !valid_id(task) {
            Option::None
        } else if head.len() == 0 {
            Option::Some(TargetView { scope: ScopeView::All, task_id: task })
        } else if head == seq!['^'] {
            Option::Some(TargetView { scope: ScopeView::Deps, task_id: task })
        } else if head == seq!['~'] {
            Option::Some(TargetView { scope: ScopeView::OwnSelf, task_id: task })
        } else if head[0] == '#' {
            if valid_id(head.skip(1)) {
                Option::Some(TargetView { scope: ScopeView::Tag(head.skip(1)), task_id: task })
            } else {
                Option::None
            }
        } else if valid_id(head) {
            Option::Some(TargetView { scope: ScopeView::Project(head), task_id: task })
        } else {
            Option::None
        }
    }
}

/// The first colon is the least index holding a colon.
proof fn lemma_first_colon_at(s: Seq<char>, i: int)
    requires
        0 <= i < s.len(),
        s[i] == ':',
        forall|j: int| 0 <= j < i ==> s[j] != ':',
    ensures
        first_colon(s) == i,
    decreases i,
{
    if i == 0 {
    } else {
        assert(s[0] != ':');
        let t = s.drop_first();
        assert(t[i - 1] == ':');
        assert(forall|j: int| 0 <= j < i - 1 ==> t[j] == s[j + 1] && t[j] != ':');
        lemma_first_colon_at(t, i - 1);
    }
}

/// A string without a colon has no first colon.
proof fn lemma_no_colon(s: Seq<char>)
    requires
        forall|j: int| 0 <= j < s.len() ==> s[j] != ':',
    ensures
        first_colon(s) == -1,
    decreases s.len(),
{
    if s.len() > 0 {
        lemma_no_colon(s.drop_first());
    }
}

/// Identifier characters are never colons or hashes.
proof fn lemma_id_chars_plain(s: Seq<char>)
    requires
        valid_id(s),
    ensures
        forall|j: int| 0 <= j < s.len() ==> s[j] != ':',
        s[0] != '#',
        s != seq!['^'],
        s != seq!['~'],
{
    assert forall|j: int| 0 <= j < s.len() implies s[j] != ':' by {
        assert(is_id_char(s[j]));
    }
    assert(is_id_start_char(s[0]));
    if s == seq!['^'] {
        assert(s[0] == '^');
    }
    if s == seq!['~'] {
        assert(s[0] == '~');
    }
}

/// Parsing the canonical form of a valid target gives the target back.
pub proof fn lemma_parse_format_round_trip(t: TargetView)
    requires
        valid_target(t),
    ensures
        spec_parse(spec_format(t)) == Option::Some(t),
{
    let s = spec_format(t);
    lemma_id_chars_plain(t.task_id);
    match t.scope {
        ScopeView::All => {
            lemma_first_colon_at(s, 0);
            assert(s.take(0) =~= Seq::<char>::empty());
            assert(s.skip(1) =~= t.task_id);
        },
        ScopeView::Deps => {
            assert(s[0] == '^' && s[1] == ':');
            lemma_first_colon_at(s, 1);
            assert(s.take(1) =~= seq!['^']);
            assert(s.skip(2) =~= t.task_id);
        },
        ScopeView::OwnSelf => {
            assert(s[0] == '~' && s[1] == ':');
            lemma_first_colon_at(s, 1);
            assert(s.take(1) =~= seq!['~']);
            assert(s.skip(2) =~= t.task_id);
            assert(s.take(1) != seq!['^']) by {
                if s.take(1) == seq!['^'] {
                    assert(s.take(1)[0] == '^');
                }
            };
        },
        ScopeView::Project(p) => {
            lemma_id_chars_plain(p);
            let c = p.len() as int;
            assert(s[c] == ':');
            assert(forall|j: int| 0 <= j < c ==> s[j] == p[j] && s[j] != ':');
            lemma_first_colon_at(s, c);
            assert(s.take(c) =~= p);
            assert(s.skip(c + 1) =~= t.task_id);
            assert(s.take(c) != seq!['^'] && s.take(c) != seq!['~']);
            assert(s.take(c)[0] != '#');
        },
        ScopeView::Tag(g) => {
            lemma_id_chars_plain(g);
            let c = g.len() as int + 1;
            assert(s[c] == ':');
            assert(s[0] == '#');
            assert(forall|j: int| 1 <= j < c ==> s[j] == g[j - 1] && s[j] != ':');
            lemma_first_colon_at(s, c);
            assert(s.take(c).skip(1) =~= g);
            assert(s.skip(c + 1) =~= t.task_id);
            assert(s.take(c).len() > 1);
            assert(s.take(c)[0] == '#');
            assert(s.take(c) != seq!['^'] && s.take(c) != seq!['~']);
        },
    }
}

impl Target {
    /// Build a project-scoped target from two identifiers.
    pub fn new(project_id: &Id, task_id: &Id) -> (r: Target)
        ensures
            r@.scope == ScopeView::Project(project_id@),
            r@.task_id == task_id@,
    {
        Target { scope: TargetScope::Project(project_id.clone()), task_id: task_id.clone() }
    }

    /// Format the target in its canonical string form.
    pub fn format(&self) -> (r: String)
        ensures
            r@ == spec_format(self@),
    {
        proof {
            reveal_strlit(":");
            reveal_strlit("^:");
            reveal_strlit("~:");
            reveal_strlit("#");
        }
        let mut out = String::new();
        match &self.scope {
            TargetScope::All => {
                out.append(":");
                assert(out@ =~= seq![':']);
            },
            TargetScope::Deps => {
                out.append("^:");
                assert(out@ =~= seq!['^', ':']);
            },
            TargetScope::OwnSelf => {
                out.append("~:");
                assert(out@ =~= seq!['~', ':']);
            },
            TargetScope::Project(id) => {
                out.append(id.as_str());
                out.append(":");
                assert(out@ =~= id@ + seq![':']);
            },
            TargetScope::Tag(id) => {
                out.append("#");
                out.append(id.as_str());
                out.append(":");
                assert(out@ =~= seq!['#'] + id@ + seq![':']);
            },
        }
        out.append(self.task_id.as_str());
        assert(out@ =~= spec_format(self@));
        out
    }

    /// Parse a string into a target, reading the scope from everything
    /// before the first colon and the task identifier from everything after.
    pub fn parse(s: &str) -> (r: Result<Target, TargetError>)
        ensures
            match r {
                Ok(t) => spec_parse(s@) == Option::Some(t@) && valid_target(t@),
                Err(_) => spec_parse(s@) is None,
            },
    {
        let n = s.unicode_len();
        let mut ci: usize = 0;
        let mut found = false;
        while ci < n && !found
            invariant
                n == s@.len(),
                0 <= ci <= n,
                found ==> ci < n && s@[ci as int] == ':' && (forall|j: int|
                    0 <= j < ci ==> s@[j] != ':'),
                !found ==> forall|j: int| 0 <= j < ci ==> s@[j] != ':',
            decreases n - ci + (if found { 0int } else { 1int }),
        {
            if s.get_char(ci) == ':' {
                found = true;
            } else {
                ci += 1;
            }
        }
        if !found {
            proof {
                lemma_no_colon(s@);
            }
            return Err(TargetError::InvalidFormat);
        }
        proof {
            lemma_first_colon_at(s@, ci as int);
        }
        let head = s.substring_char(0, ci);
        let task = s.substring_char(ci + 1, n);
        proof {
            assert(head@ =~= s@.take(ci as int));
            assert(task@ =~= s@.skip(ci as int + 1));
        }
        if !check_id_chars(task) {
            return Err(TargetError::InvalidFormat);
        }
        let task_id = Id::raw(task);
        if ci == 0 {
            Ok(Target { scope: TargetScope::All, task_id })
        } else if str_eq(head, "^") {
            proof {
                reveal_strlit("^");
                assert(head@ =~= seq!['^']);
            }
            Ok(Target { scope: TargetScope::Deps, task_id })
        } else if str_eq(head, "~") {
            proof {
                reveal_strlit("~");
                assert(head@ =~= seq!['~']);
                assert(head@ != seq!['^']) by {
                    if head@ == seq!['^'] {
                        assert(head@[0] == '^');
                    }
                };
            }
            Ok(Target { scope: TargetScope::OwnSelf, task_id })
        } else if head.get_char(0) == '#' {
            proof {
                reveal_strlit("^");
                reveal_strlit("~");
                assert("^"@ =~= seq!['^']);
                assert("~"@ =~= seq!['~']);
                assert(head@ != seq!['^'] && head@ != seq!['~']);
            }
            let tag = head.substring_char(1, ci);
            proof {
                assert(tag@ =~= head@.skip(1));
            }
            if check_id_chars(tag) {
                Ok(Target { scope: TargetScope::Tag(Id::raw(tag)), task_id })
            } else {
                Err(TargetError::InvalidFormat)
            }
        } else {
            proof {
                reveal_strlit("^");
                reveal_strlit("~");
                assert("^"@ =~= seq!['^']);
                assert("~"@ =~= seq!['~']);
                assert(head@ != seq!['^'] && head@ != seq!['~']);
            }
            if check_id_chars(head) {
                Ok(Target { scope: TargetScope::Project(Id::raw(head)), task_id })
            } else {
                Err(TargetError::InvalidFormat)
            }
        }
    }

    /// Whether two targets denote the same scope and task.
    pub fn same_as(&self, other: &Target) -> (r: bool)
        ensures
            r == (self@ == other@),
    {
        let scopes_match = match (&self.scope, &other.scope) {
            (TargetScope::All, TargetScope::All) => true,
            (TargetScope::Deps, TargetScope::Deps) => true,
            (TargetScope::OwnSelf, TargetScope::OwnSelf) => true,
            (TargetScope::Project(a), TargetScope::Project(b)) => a.is(b),
            (TargetScope::Tag(a), TargetScope::Tag(b)) => a.is(b),
            _ => false,
        };
        scopes_match && self.task_id.is(&other.task_id)
    }
}

impl Clone for TargetScope {
    fn clone(&self) -> (r: Self)
        ensures
            r@ == self@,
    {
        match self {
            TargetScope::All => TargetScope::All,
            TargetScope::Deps => TargetScope::Deps,
            TargetScope::OwnSelf => TargetScope::OwnSelf,
            TargetScope::Project(id) => TargetScope::Project(id.clone()),
            TargetScope::Tag(id) => TargetScope::Tag(id.clone()),
        }
    }
}

impl Clone for Target {
    fn clone(&self) -> (r: Self)
        ensures
            r@ == self@,
    {
        Target { scope: self.scope.clone(), task_id: self.task_id.clone() }
    }
}

/// Whether a sequence of targets holds one with a given view.
pub open spec fn targets_contain(s: Seq<Target>, tv: TargetView) -> bool {
    exists|i: int| 0 <= i < s.len() && s[i]@ == tv
}

/// The views of a sequence of targets.
pub open spec fn targets_view(s: Seq<Target>) -> Seq<TargetView> {
    s.map_values(|x: Target| x@)
}

/// Copy a vector of targets, keeping every view.
pub fn clone_target_vec(v: &Vec<Target>) -> (r: Vec<Target>)
    ensures
        r@.len() == v@.len(),
        forall|i: int| 0 <= i < v@.len() ==> #[trigger] r@[i]@ == v@[i]@,
        r@.map_values(|x: Target| x@) == v@.map_values(|x: Target| x@),
{
    let n = v.len();
    let mut out: Vec<Target> = Vec::new();
    let mut i: usize = 0;
    while i < n
        invariant
            n == v@.len(),
            0 <= i <= n,
            out@.len() == i,
            forall|j: int| 0 <= j < i ==> #[trigger] out@[j]@ == v@[j]@,
        decreases n - i,
    {
        out.push(v[i].clone());
        i += 1;
    }
    proof {
        assert(out@.map_values(|x: Target| x@) =~= v@.map_values(|x: Target| x@));
    }
    out
}

/// Whether a vector of targets holds one equal in view to the given target.
pub fn target_in(v: &Vec<Target>, t: &Target) -> (r: bool)
    ensures
        r == targets_contain(v@, t@),
{
    let n = v.len();
    let mut i: usize = 0;
    while i < n
        invariant
            n == v@.len(),
            0 <= i <= n,
            forall|j: int| 0 <= j < i ==> v@[j]@ != t@,
        decreases n - i,
    {
        if v[i].same_as(t) {
            return true;
        }
        i += 1;
    }
    false
}

} // verus!
