//! Choosing a script of a serialized file by a filter on its class name.
use vstd::prelude::*;
use vstd::string::*;

use crate::text::substring;
use crate::unity::MonoScript;

verus! {

/// Whether `p` occurs in `s`.
pub open spec fn contains_sub(s: Seq<char>, p: Seq<char>) -> bool {
    exists|i: int| 0 <= i && i + p.len() <= s.len() && #[trigger] s.subrange(i, i + p.len()) == p
}

/// Whether `p` occurs in `s`.
pub fn str_contains(s: &str, p: &str) -> (r: bool)
    ensures
        r == contains_sub(s@, p@),
{
    let n = s.unicode_len();
    let m = p.unicode_len();
    if m > n {
        return false;
    }
    if m == 0 {
        assert(s@.subrange(0int, 0int + p@.len()) =~= p@);
        return true;
    }
    let pat = p.to_string();
    let mut i: usize = 0;
    while i <= n - m
        invariant
            n == s@.len(),
            m == p@.len(),
            0 < m <= n,
            pat@ == p@,
            forall|j: int| 0 <= j < i ==> #[trigger] s@.subrange(j, j + m) != p@,
        decreases n - m + 1 - i,
    {
        let w = substring(s, i, i + m);
        if w == pat {
            return true;
        }
        i = i + 1;
    }
    proof {
        if contains_sub(s@, p@) {
            let j = choose|j: int| 0 <= j && j + p@.len() <= s@.len() && #[trigger] s@.subrange(j, j + p@.len()) == p@;
            assert(s@.subrange(j, j + m) != p@);
        }
    }
    false
}

/// A choice of scripts.
pub trait ScriptFilter {
    /// Whether `script` is chosen.
    spec fn accepts(&self, script: MonoScript) -> bool;

    /// The filter in words.
    spec fn description(&self) -> Seq<char>;

    fn matches(&self, script: &MonoScript) -> (r: bool)
        ensures
            r == self.accepts(*script);

    /// The filter in words, for messages.
    fn describe(&self) -> (r: String)
        ensures
            r@ == self.description();
}

/// Chooses scripts whose class name is exactly the one held.
pub struct ScriptFilterName(pub String);

/// Chooses scripts whose class name contains the text held.
pub struct ScriptFilterContains(pub String);

impl ScriptFilter for ScriptFilterName {
    open spec fn accepts(&self, script: MonoScript) -> bool {
        script.m_ClassName@ == self.0@
    }

    open spec fn description(&self) -> Seq<char> {
        self.0@
    }

    fn matches(&self, script: &MonoScript) -> (r: bool) {
        script.m_ClassName == self.0
    }

    fn describe(&self) -> (r: String) {
        self.0.clone()
    }
}

impl ScriptFilter for ScriptFilterContains {
    open spec fn accepts(&self, script: MonoScript) -> bool {
        contains_sub(script.m_ClassName@, self.0@)
    }

    open spec fn description(&self) -> Seq<char> {
        "containing "@ + self.0@
    }

    fn matches(&self, script: &MonoScript) -> (r: bool) {
        str_contains(script.m_ClassName.as_str(), self.0.as_str())
    }

    fn describe(&self) -> (r: String) {
        let mut r = "containing ".to_string();
        r.append(self.0.as_str());
        r
    }
}

/// The class names of `scripts`, joined with `, `.
pub open spec fn join_class_names(scripts: Seq<MonoScript>) -> Seq<char>
    decreases scripts.len(),
{
    if scripts.len() == 0 {
        Seq::empty()
    } else if scripts.len() == 1 {
        scripts[0].m_ClassName@
    } else {
        join_class_names(scripts.drop_last()) + ", "@ + scripts.last().m_ClassName@
    }
}

/// The message when no script is chosen: the filter and every class name.
pub open spec fn not_found_message(description: Seq<char>, scripts: Seq<MonoScript>) -> Seq<char> {
    "Script "@ + description + " was not found in serialized file.\nFound "@ + join_class_names(scripts)
}

/// The place in `scripts` of the last script that `filter` chooses; when
/// none is chosen, a message naming the filter and every class name.
pub fn find_script<F: ScriptFilter>(scripts: &Vec<MonoScript>, filter: &F) -> (r: Result<usize, String>)
    ensures
        r matches Ok(i) ==> i < scripts@.len() && filter.accepts(scripts@[i as int])
            && forall|j: int| i < j < scripts@.len() ==> !filter.accepts(#[trigger] scripts@[j]),
        r is Err ==> forall|j: int| 0 <= j < scripts@.len() ==> !filter.accepts(#[trigger] scripts@[j]),
        r matches Err(m) ==> m@ == not_found_message(filter.description(), scripts@),
{
    let mut found: Option<usize> = None;
    let mut i: usize = 0;
    while i < scripts.len()
        invariant
            i <= scripts@.len(),
            found matches Some(k) ==> k < i && filter.accepts(scripts@[k as int])
                && forall|j: int| k < j < i ==> !filter.accepts(#[trigger] scripts@[j]),
            found is None ==> forall|j: int| 0 <= j < i ==> !filter.accepts(#[trigger] scripts@[j]),
        decreases scripts@.len() - i,
    {
        if filter.matches(&scripts[i]) {
            found = Some(i);
        }
        i = i + 1;
    }
    match found {
        Some(k) => Ok(k),
        None => {
            let mut msg = "Script ".to_string();
            msg.append(filter.describe().as_str());
            msg.append(" was not found in serialized file.\nFound ");
            let ghost head = msg@;
            let mut j: usize = 0;
            while j < scripts.len()
                invariant
                    j <= scripts@.len(),
                    msg@ == head + join_class_names(scripts@.subrange(0, j as int)),
                decreases scripts@.len() - j,
            {
                proof {
                    assert(scripts@.subrange(0, j + 1).drop_last() =~= scripts@.subrange(0, j as int));
                }
                if j > 0 {
                    msg.append(", ");
                }
                msg.append(scripts[j].m_ClassName.as_str());
                proof {
                    if j == 0 {
                        assert(head + join_class_names(scripts@.subrange(0, 1)) =~= msg@);
                    } else {
                        assert(head + join_class_names(scripts@.subrange(0, j + 1)) =~= msg@);
                    }
                }
                j = j + 1;
            }
            proof {
                assert(scripts@.subrange(0, scripts@.len() as int) =~= scripts@);
                assert(msg@ =~= not_found_message(filter.description(), scripts@));
            }
            Err(msg)
        },
    }
}

/// The MonoBehaviours, among `behaviours`, whose script is the one at place
/// `script` of the file's script table, in order. Each MonoBehaviour is given
/// by its path id and the place of its script, when it has one.
pub open spec fn spec_behaviours_of(behaviours: Seq<(i64, Option<usize>)>, script: usize) -> Seq<i64>
    decreases behaviours.len(),
{
    if behaviours.len() == 0 {
        Seq::empty()
    } else {
        spec_behaviours_of(behaviours.drop_last(), script) + if behaviours.last().1 == Some(script) {
            seq![behaviours.last().0]
        } else {
            Seq::empty()
        }
    }
}

/// The MonoBehaviours whose script is the one at place `script`.
pub fn behaviours_of_script(behaviours: &Vec<(i64, Option<usize>)>, script: usize) -> (r: Vec<i64>)
    ensures
        r@ == spec_behaviours_of(behaviours@, script),
{
    let mut out: Vec<i64> = Vec::new();
    let mut i: usize = 0;
    while i < behaviours.len()
        invariant
            i <= behaviours@.len(),
            out@ == spec_behaviours_of(behaviours@.subrange(0, i as int), script),
        decreases behaviours@.len() - i,
    {
        proof {
            assert(behaviours@.subrange(0, i + 1).drop_last() =~= behaviours@.subrange(0, i as int));
        }
        let (id, s) = behaviours[i];
        if s == Some(script) {
            out.push(id);
        }
        i = i + 1;
    }
    assert(behaviours@.subrange(0, behaviours@.len() as int) =~= behaviours@);
    out
}

} // verus!
