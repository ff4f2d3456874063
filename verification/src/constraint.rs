//! Placement constraints, affinities, and spread.
//!
//! These shape where the scheduler may (constraint) or prefers to (affinity,
//! spread) place a task group.
use crate::error::{Error, Result};
use crate::strmap::{lookup, StrMap};
use crate::text::{concat, str_eq};
use vstd::prelude::*;

verus! {

/// A hard placement rule: a node must satisfy it to be feasible.
#[derive(Debug, Clone)]
pub struct Constraint {
    /// Left-hand target, e.g. `"${attr.os.name}"` or a bare attribute key.
    pub left: String,
    /// Right-hand target, e.g. `"linux"`.
    pub right: String,
    /// Operator: one of `=`, `!=`, `>`, `>=`, `<`, `<=`, `regexp`, `version`,
    /// `set_contains`, `distinct_hosts`, `distinct_property`.
    pub operand: String,
}

/// A soft placement preference with a weight; nudges ranking, never excludes.
#[derive(Debug, Clone)]
pub struct Affinity {
    /// Left-hand target.
    pub left: String,
    /// Right-hand target.
    pub right: String,
    /// Operator (same vocabulary as [`Constraint::operand`]).
    pub operand: String,
    /// Weight in `-100..=100`; negative repels, positive attracts.
    pub weight: i8,
}

/// A single spread target: a desired share of allocations for an attribute value.
#[derive(Debug, Clone)]
pub struct SpreadTarget {
    /// Attribute value this target applies to, e.g. a datacenter name.
    pub value: String,
    /// Desired percent of allocations on this value (`0..=100`).
    pub percent: u8,
}

/// Spreads allocations across the values of an attribute.
#[derive(Debug, Clone)]
pub struct Spread {
    /// Attribute to spread over, e.g. `"${node.datacenter}"`.
    pub attribute: String,
    /// Per-value targets; percents must not exceed 100 in total.
    pub targets: Vec<SpreadTarget>,
}

/// The operators a constraint or affinity may use.
pub open spec fn known_operand(op: Seq<char>) -> bool {
    op == "="@ || op == "!="@ || op == ">"@ || op == ">="@ || op == "<"@ || op == "<="@
        || op == "regexp"@ || op == "version"@ || op == "set_contains"@ || op == "distinct_hosts"@
        || op == "distinct_property"@
}

/// Whether `op` is a recognised operator.
pub fn is_known_operand(op: &str) -> (r: bool)
    ensures
        r == known_operand(op@),
{
    proof {
        reveal_strlit("=");
        reveal_strlit("!=");
        reveal_strlit(">");
        reveal_strlit(">=");
        reveal_strlit("<");
        reveal_strlit("<=");
        reveal_strlit("regexp");
        reveal_strlit("version");
        reveal_strlit("set_contains");
        reveal_strlit("distinct_hosts");
        reveal_strlit("distinct_property");
    }
    str_eq(op, "=") || str_eq(op, "!=") || str_eq(op, ">") || str_eq(op, ">=") || str_eq(op, "<")
        || str_eq(op, "<=") || str_eq(op, "regexp") || str_eq(op, "version") || str_eq(
        op,
        "set_contains",
    ) || str_eq(op, "distinct_hosts") || str_eq(op, "distinct_property")
}

/// The first problem with a constraint's operand and targets, if any.
pub open spec fn constraint_problem(left: Seq<char>, right: Seq<char>, op: Seq<char>) -> Option<Seq<char>> {
    if !known_operand(op) {
        Some("unknown constraint operand '"@ + op + "'"@)
    } else if op != "distinct_hosts"@ && left.len() == 0 {
        Some("constraint operand '"@ + op + "' requires a left target"@)
    } else if op != "distinct_hosts"@ && op != "distinct_property"@ && right.len() == 0 {
        Some("constraint operand '"@ + op + "' requires a right target"@)
    } else {
        None
    }
}

fn operand_message(prefix: &str, op: &str, suffix: &str) -> (r: String)
    ensures
        r@ == prefix@ + op@ + suffix@,
{
    let mut s = concat(prefix, op);
    s.append(suffix);
    s
}

fn check_targets(left: &str, right: &str, op: &str) -> (r: Result<()>)
    ensures
        match constraint_problem(left@, right@, op@) {
            None => r is Ok,
            Some(m) => r matches Err(e) && e.is_config(m),
        },
{
    proof {
        reveal_strlit("unknown constraint operand '");
        reveal_strlit("'");
        reveal_strlit("constraint operand '");
        reveal_strlit("' requires a left target");
        reveal_strlit("' requires a right target");
        reveal_strlit("distinct_hosts");
        reveal_strlit("distinct_property");
    }
    if !is_known_operand(op) {
        return Err(Error::Config(operand_message("unknown constraint operand '", op, "'")));
    }
    let hosts = str_eq(op, "distinct_hosts");
    if !hosts && left.is_empty() {
        return Err(Error::Config(operand_message("constraint operand '", op, "' requires a left target")));
    }
    if !hosts && !str_eq(op, "distinct_property") && right.is_empty() {
        return Err(Error::Config(operand_message("constraint operand '", op, "' requires a right target")));
    }
    Ok(())
}

/// The attribute key a left target names: `${attr.K}` names `K`, anything
/// else names itself.
pub open spec fn attribute_key(left: Seq<char>) -> Seq<char> {
    let pre = "${attr."@;
    if left.len() > pre.len() && left.subrange(0, pre.len() as int) == pre && left.last() == '}' {
        left.subrange(pre.len() as int, left.len() - 1)
    } else {
        left
    }
}

fn resolve_key(left: &str) -> (r: String)
    ensures
        r@ == attribute_key(left@),
{
    proof {
        reveal_strlit("${attr.");
    }
    let pre = "${attr.";
    let n = left.unicode_len();
    let m = pre.unicode_len();
    if n > m && n > 0 && left.get_char(n - 1) == '}' {
        let head = left.substring_char(0, m);
        if str_eq(head, pre) {
            return left.substring_char(m, n - 1).to_owned();
        }
    }
    left.to_owned()
}

/// Decimal integer denoted by `s` (optional leading `-`, at least one digit),
/// if it denotes one.
pub open spec fn parse_int(s: Seq<char>) -> Option<int> {
    if s.len() > 0 && s[0] == '-' {
        match parse_nat(s.subrange(1, s.len() as int)) {
            Some(n) => Some(-n),
            None => None,
        }
    } else {
        match parse_nat(s) {
            Some(n) => Some(n as int),
            None => None,
        }
    }
}

/// Natural number denoted by a non-empty run of ASCII digits.
pub open spec fn parse_nat(s: Seq<char>) -> Option<nat> {
    if s.len() == 0 || !all_digits(s) { None } else { Some(digits_value(s)) }
}

/// Whether every character is an ASCII digit.
pub open spec fn all_digits(s: Seq<char>) -> bool {
    forall|i: int| 0 <= i < s.len() ==> is_digit(#[trigger] s[i])
}

/// Whether `c` is an ASCII digit.
pub open spec fn is_digit(c: char) -> bool {
    '0' <= c && c <= '9'
}

/// Value of a run of ASCII digits.
pub open spec fn digits_value(s: Seq<char>) -> nat
    decreases s.len(),
{
    if s.len() == 0 {
        0
    } else {
        digits_value(s.drop_last()) * 10 + ((s.last() as u32 - '0' as u32) as nat)
    }
}

/// Parse a decimal natural number that fits in `u64`; `None` when `s` is not a
/// run of digits or the value is too large.
pub fn parse_u64(s: &str) -> (r: Option<u64>)
    ensures
        r matches Some(v) ==> parse_nat(s@) == Some(v as nat),
        r is None ==> parse_nat(s@) is None || parse_nat(s@)->Some_0 > u64::MAX,
{
    let n = s.unicode_len();
    if n == 0 {
        return None;
    }
    let mut acc: u64 = 0;
    let mut overflow = false;
    let mut i: usize = 0;
    while i < n
        invariant
            n == s@.len(),
            i <= n,
            all_digits(s@.subrange(0, i as int)),
            !overflow ==> acc as nat == digits_value(s@.subrange(0, i as int)),
            overflow ==> digits_value(s@.subrange(0, i as int)) > u64::MAX,
        decreases n - i,
    {
        let c = s.get_char(i);
        if !('0' <= c && c <= '9') {
            assert(!all_digits(s@)) by {
                assert(!is_digit(s@[i as int]));
            }
            return None;
        }
        let d = (c as u32 - '0' as u32) as u64;
        assert(s@.subrange(0, i + 1).drop_last() =~= s@.subrange(0, i as int));
        assert(s@.subrange(0, i + 1).last() == c);
        assert(all_digits(s@.subrange(0, i + 1))) by {
            assert forall|j: int| 0 <= j < i + 1 implies is_digit(#[trigger] s@.subrange(0, i + 1)[j]) by {
                if j < i {
                    assert(s@.subrange(0, i + 1)[j] == s@.subrange(0, i as int)[j]);
                }
            }
        }
        if overflow || acc > (u64::MAX - d) / 10 {
            proof {
                let prev = digits_value(s@.subrange(0, i as int));
                assert(prev * 10 + d > u64::MAX) by (nonlinear_arith)
                    requires
                        overflow ==> prev > u64::MAX,
                        !overflow ==> prev == acc && acc > (u64::MAX - d) / 10,
                        d <= 9,
                ;
            }
            overflow = true;
        } else {
            proof {
                assert(acc * 10 + d <= u64::MAX) by (nonlinear_arith)
                    requires
                        acc <= (u64::MAX - d) / 10,
                        d <= 9,
                ;
            }
            acc = acc * 10 + d;
        }
        i = i + 1;
    }
    assert(s@.subrange(0, n as int) =~= s@);
    if overflow {
        None
    } else {
        Some(acc)
    }
}

/// Parse a decimal integer that fits in `i64`.
pub fn parse_i64(s: &str) -> (r: Option<i64>)
    ensures
        match r {
            Some(v) => i64_value(s@) == Some(v as int),
            None => i64_value(s@) is None,
        },
{
    let n = s.unicode_len();
    if n > 0 && s.get_char(0) == '-' {
        let rest = s.substring_char(1, n);
        match parse_u64(rest) {
            Some(v) => {
                if v <= 9223372036854775808u64 {
                    if v == 9223372036854775808u64 {
                        Some(i64::MIN)
                    } else {
                        Some(-(v as i64))
                    }
                } else {
                    None
                }
            },
            None => None,
        }
    } else {
        match parse_u64(s) {
            Some(v) => {
                if v <= i64::MAX as u64 {
                    Some(v as i64)
                } else {
                    None
                }
            },
            None => None,
        }
    }
}

/// Strict lexicographic order on character sequences.
pub open spec fn seq_less(a: Seq<char>, b: Seq<char>) -> bool
    decreases a.len(),
{
    if a.len() == 0 {
        b.len() > 0
    } else if b.len() == 0 {
        false
    } else if a[0] != b[0] {
        (a[0] as u32) < (b[0] as u32)
    } else {
        seq_less(a.drop_first(), b.drop_first())
    }
}

fn str_less(a: &str, b: &str) -> (r: bool)
    ensures
        r == seq_less(a@, b@),
{
    let n = a.unicode_len();
    let m = b.unicode_len();
    let mut i: usize = 0;
    assert(a@.subrange(0, n as int) =~= a@);
    assert(b@.subrange(0, m as int) =~= b@);
    while i < n && i < m
        invariant
            n == a@.len(),
            m == b@.len(),
            i <= n,
            i <= m,
            seq_less(a@, b@) == seq_less(a@.subrange(i as int, n as int), b@.subrange(i as int, m as int)),
        decreases n - i,
    {
        let ca = a.get_char(i);
        let cb = b.get_char(i);
        assert(a@.subrange(i as int, n as int)[0] == ca);
        assert(b@.subrange(i as int, m as int)[0] == cb);
        if ca != cb {
            return (ca as u32) < (cb as u32);
        }
        assert(a@.subrange(i as int, n as int).drop_first() =~= a@.subrange(i + 1, n as int));
        assert(b@.subrange(i as int, m as int).drop_first() =~= b@.subrange(i + 1, m as int));
        i = i + 1;
    }
    i == n && i < m
}

/// The value of a decimal integer that fits in `i64`.
pub open spec fn i64_value(s: Seq<char>) -> Option<int> {
    match parse_int(s) {
        Some(v) => if i64::MIN <= v && v <= i64::MAX { Some(v) } else { None },
        None => None,
    }
}

/// Ordering comparison used by `<`, `<=`, `>`, `>=`: numeric when both sides
/// are decimal integers in `i64` range, lexicographic otherwise; `-1`, `0` or `1`.
pub open spec fn compare(a: Seq<char>, b: Seq<char>) -> int {
    match (i64_value(a), i64_value(b)) {
        (Some(x), Some(y)) => if x < y { -1 } else if x == y { 0 } else { 1 },
        _ => if seq_less(a, b) { -1 } else if a == b { 0 } else { 1 },
    }
}

fn compare_values(a: &str, b: &str) -> (r: i8)
    ensures
        r as int == compare(a@, b@),
{
    match (parse_i64(a), parse_i64(b)) {
        (Some(x), Some(y)) => if x < y { -1 } else if x == y { 0 } else { 1 },
        _ => if str_less(a, b) { -1 } else if str_eq(a, b) { 0 } else { 1 },
    }
}

/// Whether a node whose attributes are `attrs` satisfies the rule
/// `left op right`. The left target names an attribute (see
/// [`attribute_key`]); `distinct_hosts` and `distinct_property` are decided by
/// the scheduler across placements and hold of every single node; `regexp` and
/// `version` are not evaluated here and hold of no node.
pub open spec fn rule_holds(attrs: Seq<(Seq<char>, String)>, left: Seq<char>, right: Seq<char>, op: Seq<char>) -> bool {
    let found = lookup(attrs, attribute_key(left));
    if op == "distinct_hosts"@ || op == "distinct_property"@ {
        true
    } else if op == "!="@ {
        !(found matches Some(v) && v@ == right)
    } else {
        match found {
            None => false,
            Some(v) => {
                if op == "="@ {
                    v@ == right
                } else if op == "<"@ {
                    compare(v@, right) < 0
                } else if op == "<="@ {
                    compare(v@, right) <= 0
                } else if op == ">"@ {
                    compare(v@, right) > 0
                } else if op == ">="@ {
                    compare(v@, right) >= 0
                } else {
                    false
                }
            },
        }
    }
}


fn rule_holds_exec(attrs: &StrMap<String>, left: &str, right: &str, op: &str) -> (r: bool)
    ensures
        r == rule_holds(attrs.pairs(), left@, right@, op@),
{
    proof {
        reveal_strlit("distinct_hosts");
        reveal_strlit("distinct_property");
        reveal_strlit("!=");
        reveal_strlit("=");
        reveal_strlit("<");
        reveal_strlit("<=");
        reveal_strlit(">");
        reveal_strlit(">=");
    }
    let key = resolve_key(left);
    let found = attrs.get(key.as_str());
    if str_eq(op, "distinct_hosts") || str_eq(op, "distinct_property") {
        true
    } else if str_eq(op, "!=") {
        match found {
            Some(v) => !str_eq(v.as_str(), right),
            None => true,
        }
    } else {
        match found {
            None => false,
            Some(v) => {
                if str_eq(op, "=") {
                    str_eq(v.as_str(), right)
                } else if str_eq(op, "<") {
                    compare_values(v.as_str(), right) < 0
                } else if str_eq(op, "<=") {
                    compare_values(v.as_str(), right) <= 0
                } else if str_eq(op, ">") {
                    compare_values(v.as_str(), right) > 0
                } else if str_eq(op, ">=") {
                    compare_values(v.as_str(), right) >= 0
                } else {
                    false
                }
            },
        }
    }
}

impl Constraint {
    /// Validate that the operand is recognised and targets are present.
    ///
    /// # Errors
    ///
    /// Returns [`Error::Config`] for an unknown operand or an empty target
    /// where the operand requires one (`distinct_hosts` needs none,
    /// `distinct_property` needs only a left target).
    pub fn validate(&self) -> (r: Result<()>)
        ensures
            match constraint_problem(self.left@, self.right@, self.operand@) {
                None => r is Ok,
                Some(m) => r matches Err(e) && e.is_config(m),
            },
    {
        check_targets(self.left.as_str(), self.right.as_str(), self.operand.as_str())
    }

    /// Whether a node with the given `attributes` satisfies this constraint.
    pub fn satisfied_by(&self, attributes: &StrMap<String>) -> (r: bool)
        ensures
            r == rule_holds(attributes.pairs(), self.left@, self.right@, self.operand@),
    {
        rule_holds_exec(attributes, self.left.as_str(), self.right.as_str(), self.operand.as_str())
    }
}

/// The first problem with an affinity, if any.
pub open spec fn affinity_problem(a: Affinity) -> Option<Seq<char>> {
    if a.weight < -100 || a.weight > 100 || a.weight == 0 {
        Some("affinity weight must be non-zero and within -100..=100"@)
    } else if !known_operand(a.operand@) {
        Some("unknown affinity operand '"@ + a.operand@ + "'"@)
    } else {
        None
    }
}

impl Affinity {
    /// Validate the affinity.
    ///
    /// # Errors
    ///
    /// Returns [`Error::Config`] if `weight` is zero or outside `-100..=100`,
    /// or the operand is unknown.
    pub fn validate(&self) -> (r: Result<()>)
        ensures
            match affinity_problem(*self) {
                None => r is Ok,
                Some(m) => r matches Err(e) && e.is_config(m),
            },
    {
        proof {
            reveal_strlit("affinity weight must be non-zero and within -100..=100");
            reveal_strlit("unknown affinity operand '");
            reveal_strlit("'");
        }
        if self.weight < -100 || self.weight > 100 || self.weight == 0 {
            return Err(Error::Config(String::from_str("affinity weight must be non-zero and within -100..=100")));
        }
        if !is_known_operand(self.operand.as_str()) {
            return Err(Error::Config(operand_message("unknown affinity operand '", self.operand.as_str(), "'")));
        }
        Ok(())
    }

    /// Whether a node with the given `attributes` satisfies this affinity's rule.
    pub fn satisfied_by(&self, attributes: &StrMap<String>) -> (r: bool)
        ensures
            r == rule_holds(attributes.pairs(), self.left@, self.right@, self.operand@),
    {
        rule_holds_exec(attributes, self.left.as_str(), self.right.as_str(), self.operand.as_str())
    }
}

/// Sum of the target percents.
pub open spec fn percent_sum(ts: Seq<SpreadTarget>) -> int
    decreases ts.len(),
{
    if ts.len() == 0 { 0 } else { percent_sum(ts.drop_last()) + ts.last().percent }
}

/// A prefix never sums to more than the whole.
pub proof fn lemma_percent_sum_prefix(ts: Seq<SpreadTarget>, k: int)
    requires
        0 <= k <= ts.len(),
    ensures
        percent_sum(ts.subrange(0, k)) <= percent_sum(ts),
    decreases ts.len(),
{
    if k < ts.len() {
        assert(ts.drop_last() =~= ts.subrange(0, ts.len() - 1));
        assert(ts.drop_last().subrange(0, k) =~= ts.subrange(0, k));
        lemma_percent_sum_prefix(ts.drop_last(), k);
    } else {
        assert(ts.subrange(0, k) =~= ts);
    }
}

/// The first problem with a spread, if any.
pub open spec fn spread_problem(s: Spread) -> Option<Seq<char>> {
    if s.attribute@.len() == 0 {
        Some("spread attribute cannot be empty"@)
    } else if percent_sum(s.targets@) > 100 {
        Some("spread target percents sum above 100"@)
    } else {
        None
    }
}

impl Spread {
    /// Validate the spread.
    ///
    /// # Errors
    ///
    /// Returns [`Error::Config`] if `attribute` is empty or the target
    /// percents sum above 100.
    pub fn validate(&self) -> (r: Result<()>)
        ensures
            match spread_problem(*self) {
                None => r is Ok,
                Some(m) => r matches Err(e) && e.is_config(m),
            },
    {
        proof {
            reveal_strlit("spread attribute cannot be empty");
            reveal_strlit("spread target percents sum above 100");
        }
        if self.attribute.as_str().is_empty() {
            return Err(Error::Config(String::from_str("spread attribute cannot be empty")));
        }
        let mut total: u64 = 0;
        let mut i: usize = 0;
        while i < self.targets.len()
            invariant
                i <= self.targets@.len(),
                total == percent_sum(self.targets@.subrange(0, i as int)),
                total <= 100,
                self.attribute@.len() != 0,
            decreases self.targets@.len() - i,
        {
            assert(self.targets@.subrange(0, i + 1).drop_last() =~= self.targets@.subrange(0, i as int));
            total = total + self.targets[i].percent as u64;
            i = i + 1;
            if total > 100 {
                proof {
                    lemma_percent_sum_prefix(self.targets@, i as int);
                    reveal_strlit("spread target percents sum above 100");
                }
                return Err(Error::Config(String::from_str("spread target percents sum above 100")));
            }
        }
        assert(self.targets@.subrange(0, i as int) =~= self.targets@);
        Ok(())
    }
}

} // verus!
