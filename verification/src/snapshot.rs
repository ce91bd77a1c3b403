//! The document in which an armed run publishes the cash that it has just read.
use crate::text::{before, number, numeral, same, sorts_before};
use vstd::prelude::*;
use vstd::string::StringExecFns;

verus! {

/// The text of a string in JSON.
pub uninterp spec fn quoted(s: Seq<char>) -> Seq<char>;

/// `serde_json::to_string` of a string: the text is a function of the string
/// alone.
#[verifier::external_body]
fn json_string(s: &str) -> (r: String)
    ensures
        r@ == quoted(s@),
{
    serde_json::to_string(s).unwrap()
}

/// A figure filed under its venue: it takes the place of an earlier one, and the
/// venues stay in the order of their names.
pub open spec fn filed(
    m: Seq<(Seq<char>, Seq<char>)>,
    k: Seq<char>,
    v: Seq<char>,
) -> Seq<(Seq<char>, Seq<char>)>
    decreases m.len(),
{
    if m.len() == 0 {
        seq![(k, v)]
    } else if m[0].0 == k {
        seq![(k, v)] + m.drop_first()
    } else if before(k, m[0].0) {
        seq![(k, v)] + m
    } else {
        seq![m[0]] + filed(m.drop_first(), k, v)
    }
}

/// The first `n` figures, filed.
pub open spec fn figures(pairs: Seq<(String, String)>, n: nat) -> Seq<(Seq<char>, Seq<char>)>
    decreases n,
{
    if n == 0 {
        Seq::empty()
    } else {
        filed(figures(pairs, (n - 1) as nat), pairs[n - 1].0@, pairs[n - 1].1@)
    }
}

/// The first `n` figures as an object's members.
pub open spec fn members(m: Seq<(Seq<char>, Seq<char>)>, n: nat) -> Seq<char>
    decreases n,
{
    if n == 0 {
        Seq::empty()
    } else {
        members(m, (n - 1) as nat) + (if n == 1 {
            ""@
        } else {
            ","@
        }) + quoted(m[n - 1].0) + ":"@ + quoted(m[n - 1].1)
    }
}

/// The document: when the venues answered, for how long that is good, what they
/// answered, and whose process read it.
pub open spec fn snapshot_text(
    at: u64,
    max_age_s: u64,
    pid: u64,
    started_at: u64,
    m: Seq<(Seq<char>, Seq<char>)>,
) -> Seq<char> {
    "{\"at\":"@
        + numeral(at as nat)
        + ",\"balances\":{"@
        + members(m, m.len())
        + "},\"max_age_s\":"@
        + numeral(max_age_s as nat)
        + ",\"pid\":"@
        + numeral(pid as nat)
        + ",\"started_at\":"@
        + numeral(started_at as nat)
        + "}\n"@
}

/// What a list of figures says.
pub open spec fn said(v: Seq<(String, String)>) -> Seq<(Seq<char>, Seq<char>)> {
    Seq::new(v.len(), |i: int| (v[i].0@, v[i].1@))
}

proof fn lemma_filed_at(m: Seq<(Seq<char>, Seq<char>)>, k: Seq<char>, v: Seq<char>, i: int)
    requires
        0 <= i <= m.len(),
        forall|j: int| 0 <= j < i ==> (#[trigger] m[j]).0 != k && !before(k, m[j].0),
        i == m.len() || m[i].0 == k || before(k, m[i].0),
    ensures
        i < m.len() && m[i].0 == k ==> filed(m, k, v) == m.update(i, (k, v)),
        !(i < m.len() && m[i].0 == k) ==> filed(m, k, v) == m.insert(i, (k, v)),
    decreases m.len(),
{
    if m.len() > 0 && i > 0 {
        let rest = m.drop_first();
        assert forall|j: int| 0 <= j < i - 1 implies (#[trigger] rest[j]).0 != k && !before(
            k,
            rest[j].0,
        ) by {
            assert(rest[j] == m[j + 1]);
        }
        lemma_filed_at(rest, k, v, i - 1);
        assert(m[0].0 != k && !before(k, m[0].0));
        if i < m.len() && m[i].0 == k {
            assert(seq![m[0]] + rest.update(i - 1, (k, v)) =~= m.update(i, (k, v)));
        } else {
            assert(seq![m[0]] + rest.insert(i - 1, (k, v)) =~= m.insert(i, (k, v)));
        }
    } else if m.len() > 0 {
        if m[0].0 == k {
            assert(seq![(k, v)] + m.drop_first() =~= m.update(0, (k, v)));
        } else {
            assert(seq![(k, v)] + m =~= m.insert(0, (k, v)));
        }
    } else {
        assert(seq![(k, v)] =~= m.insert(0, (k, v)));
    }
}

fn file(m: &mut Vec<(String, String)>, k: &String, v: &String)
    ensures
        said(final(m)@) == filed(said(old(m)@), k@, v@),
{
    let ghost was = said(m@);
    let mut i: usize = 0;
    while i < m.len()
        invariant_except_break
            was == said(m@),
            forall|j: int| 0 <= j < i ==> (#[trigger] was[j]).0 != k@ && !before(k@, was[j].0),
            i <= m@.len(),
        ensures
            was == said(m@),
            i <= m@.len(),
            forall|j: int| 0 <= j < i ==> (#[trigger] was[j]).0 != k@ && !before(k@, was[j].0),
            i == m@.len() || was[i as int].0 == k@ || before(k@, was[i as int].0),
        decreases m@.len() - i,
    {
        if same(m[i].0.as_str(), k.as_str()) || sorts_before(k.as_str(), m[i].0.as_str()) {
            break;
        }
        i = i + 1;
    }
    proof {
        lemma_filed_at(was, k@, v@, i as int);
    }
    if i < m.len() && same(m[i].0.as_str(), k.as_str()) {
        m.set(i, (k.clone(), v.clone()));
        assert(said(m@) =~= was.update(i as int, (k@, v@)));
    } else {
        m.insert(i, (k.clone(), v.clone()));
        assert(said(m@) =~= was.insert(i as int, (k@, v@)));
    }
}

fn write_members(m: &Vec<(String, String)>) -> (r: String)
    ensures
        r@ == members(said(m@), m@.len()),
{
    let mut s: String = "".to_owned();
    proof {
        reveal_strlit("");
        assert(s@ =~= members(said(m@), 0));
    }
    let mut i: usize = 0;
    while i < m.len()
        invariant
            i <= m@.len(),
            s@ == members(said(m@), i as nat),
        decreases m@.len() - i,
    {
        if i > 0 {
            s.append(",");
        }
        proof {
            reveal_strlit("");
        }
        s.append(json_string(m[i].0.as_str()).as_str());
        s.append(":");
        s.append(json_string(m[i].1.as_str()).as_str());
        i = i + 1;
        assert(s@ =~= members(said(m@), i as nat));
    }
    s
}

/// The document of one reading of both venues' cash.
pub fn publish_balances(
    at: u64,
    max_age_s: u64,
    pid: u64,
    started_at: u64,
    pairs: &Vec<(String, String)>,
) -> (r: String)
    ensures
        r@ == snapshot_text(at, max_age_s, pid, started_at, figures(pairs@, pairs@.len())),
{
    let mut m: Vec<(String, String)> = Vec::new();
    assert(said(m@) =~= figures(pairs@, 0));
    let mut i: usize = 0;
    while i < pairs.len()
        invariant
            i <= pairs@.len(),
            said(m@) == figures(pairs@, i as nat),
        decreases pairs@.len() - i,
    {
        file(&mut m, &pairs[i].0, &pairs[i].1);
        i = i + 1;
    }
    let mut s: String = "{\"at\":".to_owned();
    s.append(number(at).as_str());
    s.append(",\"balances\":{");
    s.append(write_members(&m).as_str());
    s.append("},\"max_age_s\":");
    s.append(number(max_age_s).as_str());
    s.append(",\"pid\":");
    s.append(number(pid).as_str());
    s.append(",\"started_at\":");
    s.append(number(started_at).as_str());
    s.append("}\n");
    s
}

proof fn lemma_filed_holds(
    m: Seq<(Seq<char>, Seq<char>)>,
    k: Seq<char>,
    v: Seq<char>,
    e: (Seq<char>, Seq<char>),
)
    requires
        e == (k, v) || e.0 != k && m.contains(e),
    ensures
        filed(m, k, v).contains(e),
    decreases m.len(),
{
    let all = filed(m, k, v);
    if m.len() == 0 || m[0].0 == k || before(k, m[0].0) {
        if e == (k, v) {
            assert(all[0] == e);
        } else {
            let j = choose|j: int| 0 <= j < m.len() && m[j] == e;
            if m[0].0 == k {
                assert(all[j] == e);
            } else {
                assert(all[j + 1] == e);
            }
        }
    } else {
        let rest = m.drop_first();
        if e == m[0] {
            assert(all[0] == e);
        } else {
            if e != (k, v) {
                let j = choose|j: int| 0 <= j < m.len() && m[j] == e;
                assert(rest[j - 1] == e);
            }
            lemma_filed_holds(rest, k, v, e);
            let i = choose|i: int| 0 <= i < filed(rest, k, v).len() && filed(rest, k, v)[i] == e;
            assert(all[i + 1] == e);
        }
    }
}

/// The figure that was read last for a venue is the one that is published.
pub proof fn law_the_last_figure_is_published(pairs: Seq<(String, String)>, n: nat, at: int)
    requires
        0 <= at < n <= pairs.len(),
        forall|j: int| at < j < n ==> (#[trigger] pairs[j]).0@ != pairs[at].0@,
    ensures
        figures(pairs, n).contains((pairs[at].0@, pairs[at].1@)),
    decreases n,
{
    let m = figures(pairs, (n - 1) as nat);
    let e = (pairs[at].0@, pairs[at].1@);
    if at < n - 1 {
        law_the_last_figure_is_published(pairs, (n - 1) as nat, at);
        assert(pairs[n - 1].0@ != pairs[at].0@);
    }
    lemma_filed_holds(m, pairs[n - 1].0@, pairs[n - 1].1@, e);
}

} // verus!
