//! Network resources: modes and port allocations.
//!
//! Describes a task group's networking: the network mode and its reserved
//! (static) and dynamic ports.
use crate::error::{Error, Result};
use crate::text::{concat3, str_eq};
use vstd::prelude::*;

verus! {

/// The network isolation mode for a task group.
#[derive(Debug, Clone, PartialEq, Eq)]
pub enum NetworkMode {
    /// Share the host network namespace.
    Host,
    /// Bridge with port mapping.
    Bridge,
    /// No networking.
    NoNetwork,
    /// A named CNI network (`cni/<name>`).
    Cni(String),
}

/// A port mapping request.
#[derive(Debug, Clone)]
pub struct Port {
    /// Port label, referenced by services (unique within the network).
    pub label: String,
    /// Static host port; `None` means assign a dynamic port.
    pub static_value: Option<u16>,
    /// Container-side port to map to; `None` means same as host.
    pub to: Option<u16>,
}

/// A task group's network resource.
#[derive(Debug, Clone)]
pub struct NetworkResource {
    /// Network mode.
    pub mode: NetworkMode,
    /// Statically reserved ports.
    pub reserved_ports: Vec<Port>,
    /// Dynamically assigned ports.
    pub dynamic_ports: Vec<Port>,
}

/// What is wrong with port `i` given the ports before it, if anything: an
/// empty label, or a label an earlier port already uses.
pub open spec fn label_problem_at(ports: Seq<Port>, i: int) -> Option<Seq<char>> {
    if ports[i].label@.len() == 0 {
        Some("port label cannot be empty"@)
    } else if exists|j: int| 0 <= j < i && (#[trigger] ports[j]).label@ == ports[i].label@ {
        Some("duplicate port label '"@ + ports[i].label@ + "'"@)
    } else {
        None
    }
}

/// The first label problem among the first `n` ports.
pub open spec fn labels_problem(ports: Seq<Port>, n: int) -> Option<Seq<char>>
    decreases n,
{
    if n <= 0 || n > ports.len() {
        None
    } else {
        match labels_problem(ports, n - 1) {
            Some(m) => Some(m),
            None => label_problem_at(ports, n - 1),
        }
    }
}

/// The first reserved port (among the first `n`) without a non-zero static
/// value.
pub open spec fn reserved_problem(ports: Seq<Port>, n: int) -> Option<Seq<char>>
    decreases n,
{
    if n <= 0 || n > ports.len() {
        None
    } else {
        match reserved_problem(ports, n - 1) {
            Some(m) => Some(m),
            None => match ports[n - 1].static_value {
                Some(v) if v != 0 => None,
                _ => Some("reserved port '"@ + ports[n - 1].label@ + "' requires a non-zero static value"@),
            },
        }
    }
}

/// The first dynamic port (among the first `n`) whose static value is zero.
pub open spec fn zero_static_problem(ports: Seq<Port>, n: int) -> Option<Seq<char>>
    decreases n,
{
    if n <= 0 || n > ports.len() {
        None
    } else {
        match zero_static_problem(ports, n - 1) {
            Some(m) => Some(m),
            None => if ports[n - 1].static_value == Some(0u16) {
                Some("port '"@ + ports[n - 1].label@ + "' static value cannot be zero"@)
            } else {
                None
            },
        }
    }
}

/// Why a network resource is invalid, if it is: label problems are looked
/// for across reserved then dynamic ports, then the reserved ports' static
/// values, then a zero static value on a dynamic port.
pub open spec fn network_problem(n: NetworkResource) -> Option<Seq<char>> {
    let all = n.reserved_ports@ + n.dynamic_ports@;
    match labels_problem(all, all.len() as int) {
        Some(m) => Some(m),
        None => match reserved_problem(n.reserved_ports@, n.reserved_ports@.len() as int) {
            Some(m) => Some(m),
            None => zero_static_problem(n.dynamic_ports@, n.dynamic_ports@.len() as int),
        },
    }
}

/// Once a zero static value is found among the first `i + 1` dynamic ports,
/// it stays the reported one.
proof fn lemma_zero_static_problem_stays(ports: Seq<Port>, i: int, n: int)
    requires
        0 <= i < n <= ports.len(),
        zero_static_problem(ports, i) is None,
        zero_static_problem(ports, i + 1) is Some,
    ensures
        zero_static_problem(ports, n) == zero_static_problem(ports, i + 1),
    decreases n,
{
    if n > i + 1 {
        lemma_zero_static_problem_stays(ports, i, n - 1);
    }
}

/// Once a problem is found among the first `i + 1` ports, it stays the
/// first one.
proof fn lemma_labels_problem_stays(ports: Seq<Port>, i: int, n: int)
    requires
        0 <= i < n <= ports.len(),
        labels_problem(ports, i) is None,
        label_problem_at(ports, i) is Some,
    ensures
        labels_problem(ports, n) == label_problem_at(ports, i),
    decreases n,
{
    if n > i + 1 {
        lemma_labels_problem_stays(ports, i, n - 1);
    }
}

/// Once a reserved port without a static value is found, it stays the
/// first one.
proof fn lemma_reserved_problem_stays(ports: Seq<Port>, i: int, n: int)
    requires
        0 <= i < n <= ports.len(),
        reserved_problem(ports, i) is None,
        reserved_problem(ports, i + 1) is Some,
    ensures
        reserved_problem(ports, n) == reserved_problem(ports, i + 1),
    decreases n,
{
    if n > i + 1 {
        lemma_reserved_problem_stays(ports, i, n - 1);
    }
}

/// References to the reserved ports, then the dynamic ones.
fn all_ports(n: &NetworkResource) -> (r: Vec<&Port>)
    ensures
        r@.len() == n.reserved_ports@.len() + n.dynamic_ports@.len(),
        forall|i: int| 0 <= i < r@.len() ==> *(#[trigger] r@[i]) == (n.reserved_ports@ + n.dynamic_ports@)[i],
{
    let ghost all = n.reserved_ports@ + n.dynamic_ports@;
    let mut out: Vec<&Port> = Vec::new();
    let mut i: usize = 0;
    while i < n.reserved_ports.len()
        invariant
            all == n.reserved_ports@ + n.dynamic_ports@,
            i <= n.reserved_ports@.len(),
            out@.len() == i,
            forall|k: int| 0 <= k < out@.len() ==> *(#[trigger] out@[k]) == all[k],
        decreases n.reserved_ports@.len() - i,
    {
        out.push(&n.reserved_ports[i]);
        i = i + 1;
    }
    let mut j: usize = 0;
    while j < n.dynamic_ports.len()
        invariant
            all == n.reserved_ports@ + n.dynamic_ports@,
            j <= n.dynamic_ports@.len(),
            out@.len() == n.reserved_ports@.len() + j,
            forall|k: int| 0 <= k < out@.len() ==> *(#[trigger] out@[k]) == all[k],
        decreases n.dynamic_ports@.len() - j,
    {
        out.push(&n.dynamic_ports[j]);
        j = j + 1;
    }
    out
}

impl NetworkResource {
    /// Validate the network resource.
    ///
    /// # Errors
    ///
    /// Returns [`Error::Config`] if any port label is empty, labels collide,
    /// a reserved port lacks a static value, or any static value is zero.
    pub fn validate(&self) -> (r: Result<()>)
        ensures
            match network_problem(*self) {
                None => r is Ok,
                Some(msg) => r matches Err(e) && e.is_config(msg),
            },
    {
        let ghost all = self.reserved_ports@ + self.dynamic_ports@;
        let ports = all_ports(self);
        let total = ports.len();
        let mut i: usize = 0;
        while i < total
            invariant
                all == self.reserved_ports@ + self.dynamic_ports@,
                total == all.len(),
                i <= total,
                labels_problem(all, i as int) is None,
                ports@.len() == total,
                forall|k: int| 0 <= k < ports@.len() ==> *(#[trigger] ports@[k]) == all[k],
            decreases total - i,
        {
            let port = ports[i];
            assert(*port == all[i as int]);
            if port.label.as_str().is_empty() {
                proof {
                    lemma_labels_problem_stays(all, i as int, all.len() as int);
                }
                return Err(Error::Config("port label cannot be empty".to_string()));
            }
            let mut j: usize = 0;
            while j < i
                invariant
                    all == self.reserved_ports@ + self.dynamic_ports@,
                    total == all.len(),
                    j <= i < total,
                    *port == all[i as int],
                    all[i as int].label@.len() > 0,
                    labels_problem(all, i as int) is None,
                    ports@.len() == total,
                    forall|k: int| 0 <= k < ports@.len() ==> *(#[trigger] ports@[k]) == all[k],
                    forall|k: int| 0 <= k < j ==> (#[trigger] all[k]).label@ != all[i as int].label@,
                decreases i - j,
            {
                let other = ports[j];
                assert(*other == all[j as int]);
                if str_eq(other.label.as_str(), port.label.as_str()) {
                    assert(all[j as int].label@ == all[i as int].label@);
                    proof {
                        lemma_labels_problem_stays(all, i as int, all.len() as int);
                    }
                    return Err(Error::Config(concat3("duplicate port label '", port.label.as_str(), "'")));
                }
                j = j + 1;
            }
            i = i + 1;
        }
        let mut k: usize = 0;
        while k < self.reserved_ports.len()
            invariant
                k <= self.reserved_ports@.len(),
                labels_problem(all, all.len() as int) is None,
                all == self.reserved_ports@ + self.dynamic_ports@,
                reserved_problem(self.reserved_ports@, k as int) is None,
            decreases self.reserved_ports@.len() - k,
        {
            let port = &self.reserved_ports[k];
            let bad = match port.static_value {
                Some(v) => v == 0,
                None => true,
            };
            if bad {
                proof {
                    lemma_reserved_problem_stays(self.reserved_ports@, k as int, self.reserved_ports@.len() as int);
                }
                return Err(
                    Error::Config(concat3("reserved port '", port.label.as_str(), "' requires a non-zero static value")),
                );
            }
            k = k + 1;
        }
        let mut d: usize = 0;
        while d < self.dynamic_ports.len()
            invariant
                d <= self.dynamic_ports@.len(),
                labels_problem(all, all.len() as int) is None,
                all == self.reserved_ports@ + self.dynamic_ports@,
                reserved_problem(self.reserved_ports@, self.reserved_ports@.len() as int) is None,
                zero_static_problem(self.dynamic_ports@, d as int) is None,
            decreases self.dynamic_ports@.len() - d,
        {
            let port = &self.dynamic_ports[d];
            let zero = match port.static_value {
                Some(v) => v == 0,
                None => false,
            };
            if zero {
                proof {
                    lemma_zero_static_problem_stays(self.dynamic_ports@, d as int, self.dynamic_ports@.len() as int);
                }
                return Err(Error::Config(concat3("port '", port.label.as_str(), "' static value cannot be zero")));
            }
            d = d + 1;
        }
        Ok(())
    }
}

} // verus!
