//! Rule helpers: the active-rule filter that feeds the orchestrator, and a
//! sample rule.  Reading and writing rule files is the host's business.

use vstd::prelude::*;
use crate::models::{DetectionLogic, RuleYaml};

verus! {

/// A rule the orchestrator should run.
pub open spec fn is_active(r: RuleYaml) -> bool {
    r.status@ == "active"@
}

/// The rules whose status is `active`, in their original order.
#[verifier::loop_isolation(false)]
pub fn list_active_rules(rules: Vec<RuleYaml>) -> (r: Vec<RuleYaml>)
    ensures
        r@ == rules@.filter(|x: RuleYaml| is_active(x)),
{
    let ghost orig = rules@;
    let act = String::from_str("active");
    let mut rest = rules;
    let ghost mut done = Seq::<RuleYaml>::empty();
    let mut out: Vec<RuleYaml> = Vec::new();
    proof {
        reveal(Seq::filter);
        assert(done + rest@ =~= orig);
        assert(out@ =~= done.filter(|x: RuleYaml| is_active(x)));
    }
    while rest.len() > 0
        invariant
            done + rest@ == orig,
            act@ == "active"@,
            out@ == done.filter(|x: RuleYaml| is_active(x)),
        decreases rest@.len(),
    {
        let x = rest.remove(0);
        let ghost xv = x;
        proof {
            reveal(Seq::filter);
            assert(done.push(xv) + rest@ =~= orig);
            assert(done.push(xv).drop_last() =~= done);
            assert(done.push(xv).last() == xv);
        }
        if x.status.eq(&act) {
            out.push(x);
        }
        proof {
            done = done.push(xv);
            assert(out@ =~= done.filter(|x: RuleYaml| is_active(x)));
        }
    }
    proof {
        assert(rest@ =~= Seq::<RuleYaml>::empty());
        assert(done =~= orig);
    }
    out
}

/// A sample detection rule, for demonstrations and tests.  Its identifier
/// and date are left empty; the host fills them when the rule is saved.
pub fn create_sample_rule() -> (r: RuleYaml)
    ensures
        r.id@ == Seq::<char>::empty(),
        r.title@ == "SSH Brute Force Detection"@,
        r.description@ == "Detects multiple failed SSH login attempts"@,
        r.author@ == "Security Team"@,
        r.status@ == "active"@,
        r.date@ == Seq::<char>::empty(),
        r.tags@.map_values(|t: String| t@) == seq!["ssh"@, "brute-force"@, "authentication"@],
        r.detection.severity@ == "high"@,
        r.detection.condition@ == "event_id = 4625 AND logon_type = 10"@,
        r.detection.aggregation is None,
        r.output is None,
{
    let mut tags: Vec<String> = Vec::new();
    tags.push(String::from_str("ssh"));
    tags.push(String::from_str("brute-force"));
    tags.push(String::from_str("authentication"));
    proof {
        assert(tags@.map_values(|t: String| t@) =~= seq![
            "ssh"@,
            "brute-force"@,
            "authentication"@,
        ]);
    }
    RuleYaml {
        id: String::new(),
        title: String::from_str("SSH Brute Force Detection"),
        description: String::from_str("Detects multiple failed SSH login attempts"),
        author: String::from_str("Security Team"),
        status: String::from_str("active"),
        date: String::new(),
        tags,
        detection: DetectionLogic {
            severity: String::from_str("high"),
            condition: String::from_str("event_id = 4625 AND logon_type = 10"),
            aggregation: None,
        },
        output: None,
    }
}

} // verus!
