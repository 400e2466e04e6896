//! The discovery tree: one root entity for this machine, optional
//! neighbor entities, the report lines each entity owns, and the
//! pre-order rendering of the whole tree.
//!
//! A node does not own its ancestor; ancestor context is threaded
//! through the traversal as the growing prefix instead.

use crate::agg::HostAggregator;
use crate::agg::ProbeResult;
use crate::agg::spec_online_of;
use crate::subnet::Ipv4Subnet;
use crate::textfmt::report_line_for;
use crate::textfmt::spec_report_line;
use vstd::prelude::*;
use vstd::string::StringExecFns;

verus! {

/// How an entity's presence was confirmed.
#[allow(non_camel_case_types)]
#[derive(Clone, Copy, Debug)]
pub enum DiscoveryTechnique {
    Unspecified,
    ThisMachine,
    ICMP_Ping,
    TCPPortScan,
    UDPPortScan,
}

/// The rendered name of a discovery technique.
pub open spec fn spec_technique_str(t: DiscoveryTechnique) -> Seq<char> {
    match t {
        DiscoveryTechnique::Unspecified => "Unspecified"@,
        DiscoveryTechnique::ThisMachine => "ThisMachine"@,
        DiscoveryTechnique::ICMP_Ping => "ICMP_Ping"@,
        DiscoveryTechnique::TCPPortScan => "TCPPortScan"@,
        DiscoveryTechnique::UDPPortScan => "UDPPortScan"@,
    }
}

/// The name of a discovery technique.
pub fn technique_str(t: &DiscoveryTechnique) -> (r: &'static str)
    ensures
        r@ == spec_technique_str(*t),
{
    match t {
        DiscoveryTechnique::Unspecified => "Unspecified",
        DiscoveryTechnique::ThisMachine => "ThisMachine",
        DiscoveryTechnique::ICMP_Ping => "ICMP_Ping",
        DiscoveryTechnique::TCPPortScan => "TCPPortScan",
        DiscoveryTechnique::UDPPortScan => "UDPPortScan",
    }
}

/// One discovered machine: how it was found, what hardware it reports,
/// the report lines collected while scanning from it, and the machines
/// discovered through it.
pub struct ScanEntity {
    pub neighbors: Vec<ScanEntity>,
    pub discovery_technique: DiscoveryTechnique,
    pub hardware_description: String,
    pub report_lines: Vec<String>,
}

/// The pre-order rendering of one entity: its own line, its report
/// lines indented by two extra spaces, then its neighbors under a
/// prefix grown by one marker.
pub open spec fn spec_render(e: ScanEntity, prefix: Seq<char>) -> Seq<Seq<char>>
    decreases e, 1int,
{
    seq![prefix + " "@ + spec_technique_str(e.discovery_technique) + " "@
            + e.hardware_description@] + Seq::new(
        e.report_lines@.len(),
        |i: int| prefix + "  "@ + e.report_lines@[i]@,
    ) + spec_render_children(e.neighbors@, prefix + ">"@)
}

/// The concatenated renderings of a list of entities.
pub open spec fn spec_render_children(cs: Seq<ScanEntity>, prefix: Seq<char>) -> Seq<Seq<char>>
    decreases cs, 0int,
{
    if cs.len() == 0 {
        Seq::empty()
    } else {
        spec_render(cs[0], prefix) + spec_render_children(cs.drop_first(), prefix)
    }
}

/// Rendering a child list one entity at a time agrees with rendering
/// it whole.
proof fn lemma_render_children_take_step(cs: Seq<ScanEntity>, prefix: Seq<char>, j: int)
    requires
        0 <= j < cs.len(),
    ensures
        spec_render_children(cs.take(j + 1), prefix) =~= spec_render_children(cs.take(j), prefix)
            + spec_render(cs[j], prefix),
    decreases j,
{
    if j == 0 {
        assert(cs.take(1)[0] == cs[0]);
        assert(cs.take(1).drop_first() =~= Seq::<ScanEntity>::empty());
        assert(cs.take(0) =~= Seq::<ScanEntity>::empty());
    } else {
        let t = cs.drop_first();
        lemma_render_children_take_step(t, prefix, j - 1);
        assert(cs.take(j + 1)[0] == cs[0]);
        assert(cs.take(j + 1).drop_first() =~= t.take(j));
        assert(cs.take(j)[0] == cs[0]);
        assert(cs.take(j).drop_first() =~= t.take(j - 1));
        assert(t[j - 1] == cs[j]);
    }
}

impl ScanEntity {
    /// The root entity for the machine the scan runs on, carrying its
    /// hardware description; neighbors and report lines start empty.
    pub fn this_machine(hardware_description: String) -> (e: Self)
        ensures
            e.neighbors@.len() == 0,
            e.discovery_technique is ThisMachine,
            e.hardware_description@ == hardware_description@,
            e.report_lines@.len() == 0,
    {
        ScanEntity {
            neighbors: Vec::new(),
            discovery_technique: DiscoveryTechnique::ThisMachine,
            hardware_description,
            report_lines: Vec::new(),
        }
    }

    /// Appends one report line to this entity.
    pub fn report_line(&mut self, line: String)
        ensures
            final(self).report_lines@ == old(self).report_lines@.push(line),
            final(self).neighbors == old(self).neighbors,
            final(self).discovery_technique == old(self).discovery_technique,
            final(self).hardware_description == old(self).hardware_description,
    {
        self.report_lines.push(line);
    }

    /// Aggregates one subnet's probe outcomes from both strategies into
    /// their union of online hosts, and appends the subnet's report
    /// line to this entity.  Returns the aggregate so the caller can
    /// see exactly which hosts the line reports.
    pub fn record_sweep(
        &mut self,
        s: &Ipv4Subnet,
        icmp_results: &Vec<ProbeResult>,
        tcp_results: &Vec<ProbeResult>,
    ) -> (agg: HostAggregator)
        requires
            s.wf(),
        ensures
            agg.wf(),
            agg.online_set() == spec_online_of(icmp_results@).union(spec_online_of(tcp_results@)),
            final(self).report_lines@.len() == old(self).report_lines@.len() + 1,
            final(self).report_lines@.drop_last() == old(self).report_lines@,
            final(self).report_lines@.last()@ == spec_report_line(*s, agg.online@),
            final(self).neighbors == old(self).neighbors,
            final(self).discovery_technique == old(self).discovery_technique,
            final(self).hardware_description == old(self).hardware_description,
    {
        let mut agg = HostAggregator::new();
        agg.merge(icmp_results);
        agg.merge(tcp_results);
        proof {
            assert(Set::<u32>::empty().union(spec_online_of(icmp_results@)).union(
                spec_online_of(tcp_results@),
            ) =~= spec_online_of(icmp_results@).union(spec_online_of(tcp_results@)));
        }
        let line = report_line_for(s, &agg);
        let ghost pre = self.report_lines@;
        self.report_line(line);
        proof {
            assert(self.report_lines@.drop_last() =~= pre);
        }
        agg
    }

    /// Renders the tree rooted at this entity, pre-order, one string
    /// per output line.
    #[verifier::loop_isolation(false)]
    pub fn render(&self, prefix: &str) -> (lines: Vec<String>)
        ensures
            lines.deep_view() == spec_render(*self, prefix@),
        decreases *self,
    {
        let mut lines: Vec<String> = Vec::new();
        let mut head = String::new();
        head.append(prefix);
        head.append(" ");
        head.append(technique_str(&self.discovery_technique));
        head.append(" ");
        head.append(self.hardware_description.as_str());
        lines.push(head);
        let ghost head_part: Seq<Seq<char>> = seq![
            prefix@ + " "@ + spec_technique_str(self.discovery_technique) + " "@
                + self.hardware_description@,
        ];
        proof {
            assert(lines.deep_view() =~~= head_part);
        }
        let mut i: usize = 0;
        while i < self.report_lines.len()
            invariant
                i <= self.report_lines@.len(),
                lines.deep_view() == head_part + Seq::new(
                    i as nat,
                    |k: int| prefix@ + "  "@ + self.report_lines@[k]@,
                ),
            decreases self.report_lines@.len() - i,
        {
            let ghost prev = lines.deep_view();
            let mut l = String::new();
            l.append(prefix);
            l.append("  ");
            l.append(self.report_lines[i].as_str());
            let ghost lv = l@;
            lines.push(l);
            i = i + 1;
            proof {
                let target = head_part + Seq::new(
                    i as nat,
                    |k: int| prefix@ + "  "@ + self.report_lines@[k]@,
                );
                assert(lines.deep_view().len() == prev.len() + 1);
                assert forall|k: int| 0 <= k < lines.deep_view().len() implies lines.deep_view()[k]
                    == target[k] by {
                    if k < prev.len() {
                        assert(lines.deep_view()[k] == prev[k]);
                        assert(prev[k] == (head_part + Seq::new(
                            (i - 1) as nat,
                            |m: int| prefix@ + "  "@ + self.report_lines@[m]@,
                        ))[k]);
                    } else {
                        assert(prev.len() == i - 1 + 1);
                        assert(k == i as int);
                        assert(lines.deep_view()[k] == lv);
                        assert(lv =~= prefix@ + "  "@ + self.report_lines@[k - 1]@);
                    }
                }
                assert(lines.deep_view() =~= target);
            }
        }
        let ghost mid_part: Seq<Seq<char>> = head_part + Seq::new(
            self.report_lines@.len(),
            |k: int| prefix@ + "  "@ + self.report_lines@[k]@,
        );
        let mut child_prefix = String::new();
        child_prefix.append(prefix);
        child_prefix.append(">");
        let mut j: usize = 0;
        proof {
            assert(self.neighbors@.take(0) =~= Seq::<ScanEntity>::empty());
            assert(lines.deep_view() =~~= mid_part + spec_render_children(
                self.neighbors@.take(0),
                prefix@ + ">"@,
            ));
        }
        while j < self.neighbors.len()
            invariant
                j <= self.neighbors@.len(),
                child_prefix@ == prefix@ + ">"@,
                lines.deep_view() == mid_part + spec_render_children(
                    self.neighbors@.take(j as int),
                    prefix@ + ">"@,
                ),
            decreases self.neighbors@.len() - j,
        {
            let ghost pre = lines.deep_view();
            let mut sub = self.neighbors[j].render(child_prefix.as_str());
            lines.append(&mut sub);
            proof {
                lemma_render_children_take_step(self.neighbors@, prefix@ + ">"@, j as int);
                assert(lines.deep_view() =~~= pre + spec_render(
                    self.neighbors@[j as int],
                    prefix@ + ">"@,
                ));
                assert(lines.deep_view() =~~= mid_part + spec_render_children(
                    self.neighbors@.take(j as int + 1),
                    prefix@ + ">"@,
                ));
            }
            j = j + 1;
        }
        proof {
            assert(self.neighbors@.take(j as int) =~= self.neighbors@);
            assert(lines.deep_view() =~~= spec_render(*self, prefix@));
        }
        lines
    }
}

/// Rendering a root-only tree with `n` report lines yields exactly
/// `1 + n` output lines, and each report line appears prefixed by the
/// node's prefix plus two marker characters.
pub proof fn lemma_render_root_only(e: ScanEntity, prefix: Seq<char>)
    requires
        e.neighbors@.len() == 0,
    ensures
        spec_render(e, prefix).len() == 1 + e.report_lines@.len(),
        spec_render(e, prefix)[0] == prefix + " "@ + spec_technique_str(e.discovery_technique)
            + " "@ + e.hardware_description@,
        forall|i: int|
            0 <= i < e.report_lines@.len() ==> spec_render(e, prefix)[i + 1] == prefix + "  "@
                + e.report_lines@[i]@,
{
    assert(spec_render_children(e.neighbors@, prefix + ">"@) =~= Seq::<Seq<char>>::empty());
}

} // verus!
