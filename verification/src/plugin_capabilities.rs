//! What plugins can do: the capability registry built from plugin
//! manifests and tool lists, and the event router that decides which
//! plugins receive a runtime event.
use vstd::prelude::*;
use crate::alist::{keys_unique, TextMap};
use crate::json::JsonValue;
use crate::text::{contains_string, opt_str_view, string_views, without_string};

verus! {

/// A family of plugin capabilities.
#[derive(Debug, Clone, Copy, PartialEq, Eq, Structural)]
pub enum CapabilityFamily {
    ToolProvider,
    SignalSource,
    ChannelProvider,
    PostTurnHook,
    PolicyHook,
    EvalScorer,
}

/// The family a manifest's capability type names, if it is a known one.
pub open spec fn family_named(s: Seq<char>) -> Option<CapabilityFamily> {
    if s == "tool_provider"@ {
        Some(CapabilityFamily::ToolProvider)
    } else if s == "signal_source"@ {
        Some(CapabilityFamily::SignalSource)
    } else if s == "channel_provider"@ {
        Some(CapabilityFamily::ChannelProvider)
    } else if s == "post_turn_hook"@ {
        Some(CapabilityFamily::PostTurnHook)
    } else if s == "policy_hook"@ {
        Some(CapabilityFamily::PolicyHook)
    } else if s == "eval_scorer"@ {
        Some(CapabilityFamily::EvalScorer)
    } else {
        None
    }
}

/// Reads a capability type.
pub fn parse_family(s: &str) -> (r: Option<CapabilityFamily>)
    ensures
        r == family_named(s@),
{
    let t = s.to_owned();
    if t == "tool_provider".to_owned() {
        Some(CapabilityFamily::ToolProvider)
    } else if t == "signal_source".to_owned() {
        Some(CapabilityFamily::SignalSource)
    } else if t == "channel_provider".to_owned() {
        Some(CapabilityFamily::ChannelProvider)
    } else if t == "post_turn_hook".to_owned() {
        Some(CapabilityFamily::PostTurnHook)
    } else if t == "policy_hook".to_owned() {
        Some(CapabilityFamily::PolicyHook)
    } else if t == "eval_scorer".to_owned() {
        Some(CapabilityFamily::EvalScorer)
    } else {
        None
    }
}

/// A tool a plugin provides.
#[derive(Debug)]
pub struct ToolDescriptor {
    pub name: String,
    pub description: String,
    pub input_schema: Option<JsonValue>,
    pub permissions: Vec<String>,
}

/// One capability declared in a plugin manifest.
#[derive(Debug)]
pub struct CapabilityEntry {
    pub capability_type: String,
    pub tools: Option<Vec<ToolDescriptor>>,
    pub signals: Option<Vec<String>>,
    pub channels: Option<Vec<String>>,
}

/// What one plugin can do.
#[derive(Debug)]
pub struct PluginCapabilities {
    pub plugin_id: String,
    /// Distinct families.
    pub families: Vec<CapabilityFamily>,
    pub tools: Vec<ToolDescriptor>,
    /// Distinct event types.
    pub event_subscriptions: Vec<String>,
    pub signal_sources: Vec<String>,
    pub channels: Vec<String>,
}

impl PluginCapabilities {
    /// Capabilities of a plugin that declared nothing yet.
    pub fn new(plugin_id: &str) -> (r: Self)
        ensures
            r.plugin_id@ == plugin_id@,
            r.families@.len() == 0,
            r.tools@.len() == 0,
            r.event_subscriptions@.len() == 0,
            r.signal_sources@.len() == 0,
            r.channels@.len() == 0,
    {
        PluginCapabilities {
            plugin_id: plugin_id.to_owned(),
            families: Vec::new(),
            tools: Vec::new(),
            event_subscriptions: Vec::new(),
            signal_sources: Vec::new(),
            channels: Vec::new(),
        }
    }

    /// Whether the plugin has a family.
    pub fn has_family(&self, family: CapabilityFamily) -> (r: bool)
        ensures
            r == self.families@.contains(family),
    {
        let mut i: usize = 0;
        while i < self.families.len()
            invariant
                i <= self.families@.len(),
                forall|j: int| 0 <= j < i ==> self.families@[j] != family,
            decreases self.families@.len() - i,
        {
            if self.families[i] == family {
                return true;
            }
            i = i + 1;
        }
        false
    }

    /// Whether one of the plugin's tools carries the given name.
    pub open spec fn offers_tool(&self, name: Seq<char>) -> bool {
        exists|j: int| 0 <= j < self.tools@.len() && (#[trigger] self.tools@[j]).name@ == name
    }

    /// Whether the plugin provides a tool.
    pub fn provides_tool(&self, tool_name: &String) -> (r: bool)
        ensures
            r == self.offers_tool(tool_name@),
    {
        let mut i: usize = 0;
        while i < self.tools.len()
            invariant
                i <= self.tools@.len(),
                forall|j: int| 0 <= j < i ==> (#[trigger] self.tools@[j]).name@ != tool_name@,
            decreases self.tools@.len() - i,
        {
            if self.tools[i].name == *tool_name {
                return true;
            }
            i = i + 1;
        }
        false
    }

    fn add_family(&mut self, family: CapabilityFamily)
        requires
            old(self).families@.no_duplicates(),
        ensures
            final(self).families@.no_duplicates(),
            final(self).families@.to_set() == old(self).families@.to_set().insert(family),
            final(self).plugin_id == old(self).plugin_id,
            final(self).tools == old(self).tools,
            final(self).event_subscriptions == old(self).event_subscriptions,
            final(self).signal_sources == old(self).signal_sources,
            final(self).channels == old(self).channels,
    {
        if !self.has_family(family) {
            let ghost before = self.families@;
            self.families.push(family);
            assert(self.families@.to_set() =~= before.to_set().insert(family)) by {
                assert forall|f: CapabilityFamily| self.families@.contains(f) <==> before.contains(f) || f == family by {
                    if self.families@.contains(f) {
                        let j = choose|j: int| 0 <= j < self.families@.len() && self.families@[j] == f;
                        if j < before.len() {
                            assert(before[j] == f);
                        }
                    }
                    if before.contains(f) {
                        let j = choose|j: int| 0 <= j < before.len() && before[j] == f;
                        assert(self.families@[j] == f);
                    }
                    if f == family {
                        assert(self.families@[before.len() as int] == f);
                    }
                }
            }
        } else {
            assert(self.families@.to_set() =~= old(self).families@.to_set().insert(family));
        }
    }
}

/// Appends copies of `src` to `dst`.
fn append_strings(dst: &mut Vec<String>, src: &Vec<String>)
    ensures
        string_views(final(dst)@) == string_views(old(dst)@) + string_views(src@),
{
    let ghost base = string_views(dst@);
    let mut j: usize = 0;
    while j < src.len()
        invariant
            j <= src@.len(),
            string_views(dst@) == base + string_views(src@.take(j as int)),
        decreases src@.len() - j,
    {
        let ghost before = dst@;
        dst.push(src[j].clone());
        proof {
            assert(string_views(dst@) =~= string_views(before).push(src@[j as int]@));
            assert(string_views(src@.take(j + 1)) =~= string_views(src@.take(j as int)).push(src@[j as int]@));
            assert(string_views(dst@) =~= base + string_views(src@.take(j + 1)));
        }
        j = j + 1;
    }
    assert(src@.take(src@.len() as int) =~= src@);
}

/// The families a manifest names, by the capabilities' types.
pub open spec fn manifest_families(caps: Seq<CapabilityEntry>) -> Set<CapabilityFamily> {
    Set::new(|f: CapabilityFamily| exists|i: int| 0 <= i < caps.len() && family_named((#[trigger] caps[i]).capability_type@) == Some(f))
}

/// The lists a manifest's capabilities give (signals or channels), in order.
pub open spec fn manifest_list(caps: Seq<CapabilityEntry>, signals: bool) -> Seq<Seq<char>>
    decreases caps.len(),
{
    if caps.len() == 0 {
        Seq::empty()
    } else {
        let c = caps.last();
        let l = if signals { c.signals } else { c.channels };
        manifest_list(caps.drop_last(), signals) + match l {
            Some(v) => string_views(v@),
            None => Seq::empty(),
        }
    }
}

/// Registered capabilities, by plugin.
pub struct CapabilityRegistry {
    plugins: TextMap<PluginCapabilities>,
}

impl CapabilityRegistry {
    pub closed spec fn map(&self) -> Map<Seq<char>, PluginCapabilities> {
        self.plugins@
    }

    pub closed spec fn order(&self) -> Seq<(Seq<char>, PluginCapabilities)> {
        self.plugins.entry_seq()
    }

    pub closed spec fn wf(&self) -> bool {
        &&& self.plugins.wf()
        &&& forall|k: Seq<char>| #[trigger] self.plugins@.contains_key(k) ==> self.plugins@[k].families@.no_duplicates()
            && self.plugins@[k].event_subscriptions@.no_duplicates() && string_views(self.plugins@[k].event_subscriptions@).no_duplicates()
    }

    pub fn new() -> (r: Self)
        ensures
            r.wf(),
            r.map() == Map::<Seq<char>, PluginCapabilities>::empty(),
    {
        CapabilityRegistry { plugins: TextMap::new() }
    }

    fn take_entry(&mut self, plugin_id: &str) -> (r: PluginCapabilities)
        requires
            old(self).wf(),
        ensures
            final(self).wf(),
            final(self).map() == old(self).map().remove(plugin_id@),
            r.families@.no_duplicates(),
            string_views(r.event_subscriptions@).no_duplicates(),
            old(self).map().contains_key(plugin_id@) ==> r == old(self).map()[plugin_id@],
            !old(self).map().contains_key(plugin_id@) ==> r.plugin_id@ == plugin_id@ && r.families@.len() == 0
                && r.tools@.len() == 0 && r.event_subscriptions@.len() == 0 && r.signal_sources@.len() == 0 && r.channels@.len() == 0,
    {
        let key = plugin_id.to_owned();
        match self.plugins.remove(&key) {
            Some(c) => c,
            None => {
                let c = PluginCapabilities::new(plugin_id);
                assert(string_views(c.event_subscriptions@) =~= Seq::<Seq<char>>::empty());
                c
            },
        }
    }

    fn put_entry(&mut self, plugin_id: &str, caps: PluginCapabilities)
        requires
            old(self).wf(),
            caps.families@.no_duplicates(),
            string_views(caps.event_subscriptions@).no_duplicates(),
        ensures
            final(self).wf(),
            final(self).map() == old(self).map().insert(plugin_id@, caps),
    {
        proof {
            assert forall|a: int, b: int| 0 <= a < b < caps.event_subscriptions@.len() implies caps.event_subscriptions@[a] != caps.event_subscriptions@[b] by {
                assert(string_views(caps.event_subscriptions@)[a] != string_views(caps.event_subscriptions@)[b]);
            }
        }
        self.plugins.insert(plugin_id.to_owned(), caps);
    }

    /// Records the capabilities a plugin's manifest declares: the families
    /// of known capability types, and the signal sources and channels listed.
    pub fn register_from_manifest(&mut self, plugin_id: &str, capabilities: &Vec<CapabilityEntry>)
        requires
            old(self).wf(),
        ensures
            final(self).wf(),
            final(self).map().dom() == old(self).map().dom().insert(plugin_id@),
            forall|k: Seq<char>| k != plugin_id@ && #[trigger] old(self).map().contains_key(k) ==> final(self).map()[k] == old(self).map()[k],
            ({
                let before = if old(self).map().contains_key(plugin_id@) { Some(old(self).map()[plugin_id@]) } else { None };
                let after = final(self).map()[plugin_id@];
                &&& after.families@.to_set() == match before {
                    Some(b) => b.families@.to_set(),
                    None => Set::empty(),
                }.union(manifest_families(capabilities@))
                &&& string_views(after.signal_sources@) == match before {
                    Some(b) => string_views(b.signal_sources@),
                    None => Seq::empty(),
                } + manifest_list(capabilities@, true)
                &&& string_views(after.channels@) == match before {
                    Some(b) => string_views(b.channels@),
                    None => Seq::empty(),
                } + manifest_list(capabilities@, false)
                &&& match before {
                    Some(b) => after.tools == b.tools && after.event_subscriptions == b.event_subscriptions && after.plugin_id == b.plugin_id,
                    None => after.tools@.len() == 0 && after.event_subscriptions@.len() == 0 && after.plugin_id@ == plugin_id@,
                }
            }),
    {
        let mut caps = self.take_entry(plugin_id);
        let ghost start = caps;
        let mut i: usize = 0;
        while i < capabilities.len()
            invariant
                i <= capabilities@.len(),
                caps.families@.no_duplicates(),
                string_views(caps.event_subscriptions@).no_duplicates(),
                caps.families@.to_set() == start.families@.to_set().union(manifest_families(capabilities@.take(i as int))),
                string_views(caps.signal_sources@) == string_views(start.signal_sources@) + manifest_list(capabilities@.take(i as int), true),
                string_views(caps.channels@) == string_views(start.channels@) + manifest_list(capabilities@.take(i as int), false),
                caps.tools == start.tools,
                caps.event_subscriptions == start.event_subscriptions,
                caps.plugin_id == start.plugin_id,
            decreases capabilities@.len() - i,
        {
            let c = &capabilities[i];
            let ghost fam_before = caps.families@.to_set();
            proof {
                assert(capabilities@.take(i + 1).drop_last() =~= capabilities@.take(i as int));
                assert(capabilities@.take(i + 1).last() == capabilities@[i as int]);
            }
            match parse_family(c.capability_type.as_str()) {
                Some(f) => caps.add_family(f),
                None => {},
            }
            proof {
                assert(manifest_families(capabilities@.take(i + 1)) =~= manifest_families(capabilities@.take(i as int)).union(
                    match family_named(c.capability_type@) {
                        Some(f) => Set::empty().insert(f),
                        None => Set::empty(),
                    },
                )) by {
                    assert forall|f: CapabilityFamily| manifest_families(capabilities@.take(i + 1)).contains(f) <==>
                        manifest_families(capabilities@.take(i as int)).contains(f) || family_named(c.capability_type@) == Some(f) by {
                        if manifest_families(capabilities@.take(i + 1)).contains(f) {
                            let j = choose|j: int| 0 <= j < i + 1 && family_named((#[trigger] capabilities@.take(i + 1)[j]).capability_type@) == Some(f);
                            if j < i {
                                assert(capabilities@.take(i as int)[j] == capabilities@.take(i + 1)[j]);
                            }
                        }
                        if manifest_families(capabilities@.take(i as int)).contains(f) {
                            let j = choose|j: int| 0 <= j < i && family_named((#[trigger] capabilities@.take(i as int)[j]).capability_type@) == Some(f);
                            assert(capabilities@.take(i + 1)[j] == capabilities@.take(i as int)[j]);
                        }
                        if family_named(c.capability_type@) == Some(f) {
                            assert(capabilities@.take(i + 1)[i as int] == *c);
                        }
                    }
                }
                assert(caps.families@.to_set() =~= start.families@.to_set().union(manifest_families(capabilities@.take(i + 1))));
            }
            let ghost sig_before = string_views(caps.signal_sources@);
            let ghost chan_before = string_views(caps.channels@);
            match &c.signals {
                Some(v) => append_strings(&mut caps.signal_sources, v),
                None => {},
            }
            match &c.channels {
                Some(v) => append_strings(&mut caps.channels, v),
                None => {},
            }
            proof {
                assert(manifest_list(capabilities@.take(i + 1), true) == manifest_list(capabilities@.take(i as int), true) + match c.signals {
                    Some(v) => string_views(v@),
                    None => Seq::empty(),
                });
                assert(manifest_list(capabilities@.take(i + 1), false) == manifest_list(capabilities@.take(i as int), false) + match c.channels {
                    Some(v) => string_views(v@),
                    None => Seq::empty(),
                });
                assert(string_views(caps.signal_sources@) =~= string_views(start.signal_sources@) + manifest_list(capabilities@.take(i + 1), true));
                assert(string_views(caps.channels@) =~= string_views(start.channels@) + manifest_list(capabilities@.take(i + 1), false));
            }
            i = i + 1;
        }
        proof {
            assert(capabilities@.take(capabilities@.len() as int) =~= capabilities@);
            if !old(self).map().contains_key(plugin_id@) {
                assert(start.families@.to_set() =~= Set::<CapabilityFamily>::empty());
                assert(string_views(start.signal_sources@) =~= Seq::<Seq<char>>::empty());
                assert(string_views(start.channels@) =~= Seq::<Seq<char>>::empty());
            }
        }
        self.put_entry(plugin_id, caps);
    }

    /// Records the tools a plugin provides (replacing earlier ones); the
    /// plugin becomes a tool provider.
    pub fn register_tools(&mut self, plugin_id: &str, tools: Vec<ToolDescriptor>)
        requires
            old(self).wf(),
        ensures
            final(self).wf(),
            final(self).map().dom() == old(self).map().dom().insert(plugin_id@),
            forall|k: Seq<char>| k != plugin_id@ && #[trigger] old(self).map().contains_key(k) ==> final(self).map()[k] == old(self).map()[k],
            final(self).map()[plugin_id@].tools@ == tools@,
            final(self).map()[plugin_id@].families@.to_set() == if old(self).map().contains_key(plugin_id@) {
                old(self).map()[plugin_id@].families@.to_set()
            } else {
                Set::empty()
            }.insert(CapabilityFamily::ToolProvider),
    {
        let mut caps = self.take_entry(plugin_id);
        let ghost before = caps.families@.to_set();
        caps.add_family(CapabilityFamily::ToolProvider);
        caps.tools = tools;
        proof {
            if !old(self).map().contains_key(plugin_id@) {
                assert(before =~= Set::<CapabilityFamily>::empty());
            }
        }
        self.put_entry(plugin_id, caps);
    }

    /// Subscribes a plugin to event types (a set: repeats are ignored).
    pub fn register_event_subscriptions(&mut self, plugin_id: &str, event_types: Vec<String>)
        requires
            old(self).wf(),
        ensures
            final(self).wf(),
            final(self).map().dom() == old(self).map().dom().insert(plugin_id@),
            forall|k: Seq<char>| k != plugin_id@ && #[trigger] old(self).map().contains_key(k) ==> final(self).map()[k] == old(self).map()[k],
            string_views(final(self).map()[plugin_id@].event_subscriptions@).to_set() == if old(self).map().contains_key(plugin_id@) {
                string_views(old(self).map()[plugin_id@].event_subscriptions@).to_set()
            } else {
                Set::empty()
            }.union(string_views(event_types@).to_set()),
    {
        let mut caps = self.take_entry(plugin_id);
        let ghost start = string_views(caps.event_subscriptions@).to_set();
        let mut i: usize = 0;
        while i < event_types.len()
            invariant
                i <= event_types@.len(),
                caps.families@.no_duplicates(),
                string_views(caps.event_subscriptions@).no_duplicates(),
                string_views(caps.event_subscriptions@).to_set() == start.union(string_views(event_types@.take(i as int)).to_set()),
            decreases event_types@.len() - i,
        {
            let ghost before = caps.event_subscriptions@;
            let e = &event_types[i];
            proof {
                assert(string_views(event_types@.take(i + 1)) =~= string_views(event_types@.take(i as int)).push(e@));
            }
            let present = contains_string(&caps.event_subscriptions, e);
            if !present {
                caps.event_subscriptions.push(e.clone());
                proof {
                    assert(string_views(caps.event_subscriptions@) =~= string_views(before).push(e@));
                }
            }
            proof {
                let now_v = string_views(caps.event_subscriptions@);
                let old_v = string_views(before);
                let tk = string_views(event_types@.take(i + 1));
                let tk0 = string_views(event_types@.take(i as int));
                assert(old_v.to_set() == start.union(tk0.to_set()));
                assert(tk == tk0.push(e@));
                assert forall|x: Seq<char>| now_v.to_set().contains(x) <==> start.union(tk.to_set()).contains(x) by {
                    if now_v.contains(x) {
                        let a = choose|a: int| 0 <= a < now_v.len() && now_v[a] == x;
                        if present || a < old_v.len() {
                            assert(old_v[a] == x);
                            assert(old_v.contains(x));
                            assert(old_v.to_set().contains(x));
                            if !start.contains(x) {
                                assert(tk0.to_set().contains(x));
                                assert(tk0.contains(x));
                                let b = choose|b: int| 0 <= b < tk0.len() && tk0[b] == x;
                                assert(tk[b] == x);
                                assert(tk.contains(x));
                            }
                        } else {
                            assert(tk[i as int] == x);
                        }
                    }
                    if start.contains(x) || tk.contains(x) {
                        if start.contains(x) || tk0.contains(x) {
                            assert(old_v.to_set().contains(x));
                            let a = choose|a: int| 0 <= a < old_v.len() && old_v[a] == x;
                            assert(now_v[a] == x);
                        } else {
                            let b = choose|b: int| 0 <= b < tk.len() && tk[b] == x;
                            if b < i {
                                assert(tk0[b] == x);
                            }
                            assert(x == e@);
                            if present {
                                assert(old_v.contains(x));
                                let a = choose|a: int| 0 <= a < old_v.len() && old_v[a] == x;
                                assert(now_v[a] == x);
                            } else {
                                assert(now_v[old_v.len() as int] == x);
                            }
                        }
                    }
                }
                assert(now_v.to_set() =~= start.union(tk.to_set()));
                if !present {
                    assert forall|a: int, b: int| 0 <= a < now_v.len() && 0 <= b < now_v.len() && a != b implies now_v[a] != now_v[b] by {
                        if a < old_v.len() && b < old_v.len() {
                            assert(now_v[a] == old_v[a] && now_v[b] == old_v[b]);
                        } else if a < old_v.len() {
                            assert(now_v[a] == old_v[a]);
                            assert(old_v[a] != e@);
                        } else {
                            assert(now_v[b] == old_v[b]);
                            assert(old_v[b] != e@);
                        }
                    }
                }
            }
            i = i + 1;
        }
        proof {
            assert(event_types@.take(event_types@.len() as int) =~= event_types@);
            if !old(self).map().contains_key(plugin_id@) {
                assert(start =~= Set::<Seq<char>>::empty());
            }
        }
        self.put_entry(plugin_id, caps);
    }

    /// Forgets a plugin.
    pub fn unregister(&mut self, plugin_id: &str)
        requires
            old(self).wf(),
        ensures
            final(self).wf(),
            final(self).map() == old(self).map().remove(plugin_id@),
    {
        let key = plugin_id.to_owned();
        self.plugins.remove(&key);
    }

    /// The capabilities of a plugin.
    pub fn get(&self, plugin_id: &str) -> (r: Option<&PluginCapabilities>)
        requires
            self.wf(),
        ensures
            match r {
                Some(c) => self.map().contains_key(plugin_id@) && *c == self.map()[plugin_id@],
                None => !self.map().contains_key(plugin_id@),
            },
    {
        let key = plugin_id.to_owned();
        self.plugins.get(&key)
    }

    /// The plugins with a family, in registration order.
    pub fn plugins_with_family(&self, family: CapabilityFamily) -> (r: Vec<String>)
        requires
            self.wf(),
        ensures
            string_views(r@) == self.order().filter(|e: (Seq<char>, PluginCapabilities)| e.1.families@.contains(family)).map_values(
                |e: (Seq<char>, PluginCapabilities)| e.0,
            ),
    {
        let ghost f = |e: (Seq<char>, PluginCapabilities)| e.1.families@.contains(family);
        let ghost o = self.order();
        let mut out: Vec<String> = Vec::new();
        let n = self.plugins.len();
        let mut i: usize = 0;
        while i < n
            invariant
                i <= n,
                n == o.len(),
                o == self.order(),
                f == (|e: (Seq<char>, PluginCapabilities)| e.1.families@.contains(family)),
                string_views(out@) == o.take(i as int).filter(f).map_values(|e: (Seq<char>, PluginCapabilities)| e.0),
            decreases n - i,
        {
            let (k, c) = self.plugins.entry_at(i);
            proof {
                assert(o.take(i + 1) =~= o.take(i as int).push(o[i as int]));
                o.take(i as int).lemma_filter_push(o[i as int], f);
            }
            if c.has_family(family) {
                let ghost before = out@;
                out.push(k.clone());
                assert(string_views(out@) =~= string_views(before).push(k@));
                assert(o.take(i + 1).filter(f).map_values(|e: (Seq<char>, PluginCapabilities)| e.0) =~= o.take(i as int).filter(f).map_values(
                    |e: (Seq<char>, PluginCapabilities)| e.0,
                ).push(k@));
            }
            i = i + 1;
        }
        assert(o.take(n as int) =~= o);
        out
    }

    /// A plugin that provides a tool (the first registered), if any.
    pub fn find_tool_provider(&self, tool_name: &str) -> (r: Option<String>)
        requires
            self.wf(),
        ensures
            match r {
                Some(p) => self.map().contains_key(p@) && self.map()[p@].offers_tool(tool_name@),
                None => forall|k: Seq<char>| #[trigger] self.map().contains_key(k) ==> !self.map()[k].offers_tool(tool_name@),
            },
    {
        proof {
            self.plugins.lemma_entries();
        }
        let name = tool_name.to_owned();
        let n = self.plugins.len();
        let mut i: usize = 0;
        while i < n
            invariant
                i <= n,
                self.wf(),
                n == self.order().len(),
                name@ == tool_name@,
                forall|a: int| 0 <= a < i ==> !(#[trigger] self.order()[a]).1.offers_tool(tool_name@),
            decreases n - i,
        {
            let (k, c) = self.plugins.entry_at(i);
            if c.provides_tool(&name) {
                proof {
                    self.plugins.lemma_entries();
                    assert(self.map()[self.order()[i as int].0] == self.order()[i as int].1);
                }
                return Some(k.clone());
            }
            i = i + 1;
        }
        proof {
            assert forall|k: Seq<char>| #[trigger] self.map().contains_key(k) implies !self.map()[k].offers_tool(tool_name@) by {
                let a = choose|a: int| 0 <= a < self.order().len() && self.order()[a].0 == k;
                assert(self.order()[a].1 == self.map()[k]);
            }
        }
        None
    }

    /// The plugins whose registered subscriptions include an event type.
    pub open spec fn subscribers_of(&self, event_type: Seq<char>) -> Set<Seq<char>> {
        Set::new(
            |k: Seq<char>| self.map().contains_key(k) && string_views(self.map()[k].event_subscriptions@).contains(event_type),
        )
    }

    /// The plugins subscribed to an event type, in registration order.
    pub fn plugins_subscribed_to(&self, event_type: &str) -> (r: Vec<String>)
        requires
            self.wf(),
        ensures
            string_views(r@) == self.order().filter(
                |e: (Seq<char>, PluginCapabilities)| string_views(e.1.event_subscriptions@).contains(event_type@),
            ).map_values(|e: (Seq<char>, PluginCapabilities)| e.0),
            string_views(r@).no_duplicates(),
            string_views(r@).to_set() == self.subscribers_of(event_type@),
    {
        let ghost f = |e: (Seq<char>, PluginCapabilities)| string_views(e.1.event_subscriptions@).contains(event_type@);
        let ghost o = self.order();
        proof {
            self.plugins.lemma_entries();
        }
        let et = event_type.to_owned();
        let mut out: Vec<String> = Vec::new();
        let n = self.plugins.len();
        let mut i: usize = 0;
        while i < n
            invariant
                i <= n,
                n == o.len(),
                o == self.order(),
                keys_unique(o),
                et@ == event_type@,
                f == (|e: (Seq<char>, PluginCapabilities)| string_views(e.1.event_subscriptions@).contains(event_type@)),
                string_views(out@) == o.take(i as int).filter(f).map_values(|e: (Seq<char>, PluginCapabilities)| e.0),
                string_views(out@).no_duplicates(),
                forall|x: Seq<char>| #[trigger] string_views(out@).contains(x) ==> exists|a: int| 0 <= a < i && o[a].0 == x && f(o[a]),
                forall|a: int| 0 <= a < i && f(#[trigger] o[a]) ==> string_views(out@).contains(o[a].0),
            decreases n - i,
        {
            let (k, c) = self.plugins.entry_at(i);
            proof {
                assert(o.take(i + 1) =~= o.take(i as int).push(o[i as int]));
                o.take(i as int).lemma_filter_push(o[i as int], f);
            }
            if contains_string(&c.event_subscriptions, &et) {
                let ghost before = string_views(out@);
                proof {
                    if before.contains(k@) {
                        let a = choose|a: int| 0 <= a < i && o[a].0 == k@ && f(o[a]);
                        assert(o[a].0 == o[i as int].0);
                    }
                }
                out.push(k.clone());
                assert(string_views(out@) =~= before.push(k@));
                assert(o.take(i + 1).filter(f).map_values(|e: (Seq<char>, PluginCapabilities)| e.0) =~= o.take(i as int).filter(f).map_values(
                    |e: (Seq<char>, PluginCapabilities)| e.0,
                ).push(k@));
                proof {
                    assert forall|x: Seq<char>| #[trigger] string_views(out@).contains(x) implies exists|a: int| 0 <= a < i + 1 && o[a].0 == x && f(o[a]) by {
                        if x != k@ {
                            assert(before.contains(x));
                        } else {
                            assert(o[i as int].0 == x && f(o[i as int]));
                        }
                    }
                    assert forall|a: int| 0 <= a < i + 1 && f(#[trigger] o[a]) implies string_views(out@).contains(o[a].0) by {
                        if a < i {
                            assert(before.contains(o[a].0));
                            let b = choose|b: int| 0 <= b < before.len() && before[b] == o[a].0;
                            assert(string_views(out@)[b] == o[a].0);
                        } else {
                            assert(string_views(out@)[before.len() as int] == k@);
                        }
                    }
                }
            }
            i = i + 1;
        }
        assert(o.take(n as int) =~= o);
        proof {
            assert forall|x: Seq<char>| #[trigger] string_views(out@).to_set().contains(x) == self.subscribers_of(event_type@).contains(x) by {
                if string_views(out@).contains(x) {
                    let a = choose|a: int| 0 <= a < n && o[a].0 == x && f(o[a]);
                    assert(self.map().contains_key(o[a].0));
                }
                if self.subscribers_of(event_type@).contains(x) {
                    let a = choose|a: int| 0 <= a < o.len() && o[a].0 == x;
                    assert(self.map()[o[a].0] == o[a].1);
                    assert(f(o[a]));
                }
            }
            assert(string_views(out@).to_set() =~= self.subscribers_of(event_type@));
        }
        out
    }

    /// The registered plugin ids, in registration order.
    pub fn plugin_ids(&self) -> (r: Vec<String>)
        requires
            self.wf(),
        ensures
            string_views(r@) == self.order().map_values(|e: (Seq<char>, PluginCapabilities)| e.0),
    {
        let ghost o = self.order();
        let mut out: Vec<String> = Vec::new();
        let n = self.plugins.len();
        let mut i: usize = 0;
        while i < n
            invariant
                i <= n,
                n == o.len(),
                o == self.order(),
                string_views(out@) == o.take(i as int).map_values(|e: (Seq<char>, PluginCapabilities)| e.0),
            decreases n - i,
        {
            let (k, _) = self.plugins.entry_at(i);
            let ghost before = out@;
            out.push(k.clone());
            assert(string_views(out@) =~= string_views(before).push(k@));
            assert(o.take(i + 1).map_values(|e: (Seq<char>, PluginCapabilities)| e.0) =~= o.take(i as int).map_values(
                |e: (Seq<char>, PluginCapabilities)| e.0,
            ).push(k@));
            i = i + 1;
        }
        assert(o.take(n as int) =~= o);
        out
    }

    /// Number of registered plugins.
    pub fn len(&self) -> (r: usize)
        requires
            self.wf(),
        ensures
            r == self.map().len(),
    {
        self.plugins.len()
    }

    pub fn is_empty(&self) -> (r: bool)
        requires
            self.wf(),
        ensures
            r == (self.map().len() == 0),
    {
        self.plugins.len() == 0
    }
}


/// Notification method used when forwarding events to plugins.
pub const EVENT_FORWARD_METHOD: &'static str = "event.forward";

/// The plugins listed under an event type in an explicit subscription table.
pub open spec fn listed_for(table: Map<Seq<char>, Vec<String>>, event_type: Seq<char>) -> Set<Seq<char>> {
    if table.contains_key(event_type) {
        string_views(table[event_type]@).to_set()
    } else {
        Set::empty()
    }
}

/// Routes runtime events to the plugins subscribed to them: those whose
/// registered capabilities list the event type, and those subscribed
/// explicitly at run time.
pub struct PluginEventRouter {
    capabilities: CapabilityRegistry,
    subscriptions: TextMap<Vec<String>>,
}

impl PluginEventRouter {
    /// The capability registry the router consults.
    pub closed spec fn registry(&self) -> CapabilityRegistry {
        self.capabilities
    }

    /// The plugins subscribed explicitly to an event type.
    pub closed spec fn explicit(&self, event_type: Seq<char>) -> Set<Seq<char>> {
        listed_for(self.subscriptions@, event_type)
    }

    pub closed spec fn wf(&self) -> bool {
        &&& self.capabilities.wf()
        &&& self.subscriptions.wf()
        &&& forall|e: Seq<char>| #[trigger] self.subscriptions@.contains_key(e)
            ==> string_views(self.subscriptions@[e]@).no_duplicates() && self.subscriptions@[e]@.len() > 0
    }

    /// Every plugin that receives events of a type.
    pub open spec fn subscribers(&self, event_type: Seq<char>) -> Set<Seq<char>> {
        self.registry().subscribers_of(event_type).union(self.explicit(event_type))
    }

    /// A router over a capability registry, with no explicit subscriptions.
    pub fn new(capabilities: CapabilityRegistry) -> (r: Self)
        requires
            capabilities.wf(),
        ensures
            r.wf(),
            r.registry() == capabilities,
            forall|e: Seq<char>| #[trigger] r.explicit(e) == Set::<Seq<char>>::empty(),
    {
        PluginEventRouter { capabilities, subscriptions: TextMap::new() }
    }

    /// Adds an explicit subscription of a plugin to an event type.
    pub fn subscribe(&mut self, plugin_id: &str, event_type: &str)
        requires
            old(self).wf(),
        ensures
            final(self).wf(),
            final(self).registry() == old(self).registry(),
            forall|e: Seq<char>| #[trigger] final(self).explicit(e) == if e == event_type@ {
                old(self).explicit(e).insert(plugin_id@)
            } else {
                old(self).explicit(e)
            },
    {
        let ghost m0 = self.subscriptions@;
        let key = event_type.to_owned();
        let pid = plugin_id.to_owned();
        match self.subscriptions.index_of(&key) {
            Some(i) => {
                let (k, mut set) = self.subscriptions.take_at(i);
                let ghost before = string_views(set@);
                if !contains_string(&set, &pid) {
                    set.push(pid);
                    assert(string_views(set@) =~= before.push(plugin_id@));
                }
                self.subscriptions.put_at(i, k, set);
                proof {
                    assert(self.subscriptions@ == m0.insert(key@, set));
                    assert(string_views(set@).to_set() =~= before.to_set().insert(plugin_id@)) by {
                        assert forall|x: Seq<char>| #[trigger] string_views(set@).contains(x) <==> (before.contains(x) || x == plugin_id@) by {
                            if string_views(set@).contains(x) && !before.contains(x) {
                                let j = choose|j: int| 0 <= j < string_views(set@).len() && string_views(set@)[j] == x;
                                if j < before.len() {
                                    assert(before[j] == x);
                                }
                            }
                            if before.contains(x) {
                                let j = choose|j: int| 0 <= j < before.len() && before[j] == x;
                                if string_views(set@) != before {
                                    assert(string_views(set@)[j] == x);
                                }
                            }
                            if x == plugin_id@ && string_views(set@) != before {
                                assert(string_views(set@)[before.len() as int] == x);
                            }
                        }
                    }
                    if string_views(set@) != before {
                        assert forall|a: int, b: int| 0 <= a < string_views(set@).len() && 0 <= b < string_views(set@).len() && a != b
                            implies string_views(set@)[a] != string_views(set@)[b] by {
                            if a == before.len() {
                                assert(before[b] == string_views(set@)[b]);
                            } else if b == before.len() {
                                assert(before[a] == string_views(set@)[a]);
                            } else {
                                assert(before[a] == string_views(set@)[a]);
                                assert(before[b] == string_views(set@)[b]);
                            }
                        }
                    }
                }
            },
            None => {
                let mut set: Vec<String> = Vec::new();
                set.push(pid);
                proof {
                    assert(string_views(set@) =~= seq![plugin_id@]);
                    assert(string_views(set@).to_set() =~= Set::<Seq<char>>::empty().insert(plugin_id@)) by {
                        assert(string_views(set@)[0] == plugin_id@);
                    }
                }
                self.subscriptions.insert(key, set);
            },
        }
    }

    /// Removes an explicit subscription of a plugin to an event type.
    pub fn unsubscribe(&mut self, plugin_id: &str, event_type: &str)
        requires
            old(self).wf(),
        ensures
            final(self).wf(),
            final(self).registry() == old(self).registry(),
            forall|e: Seq<char>| #[trigger] final(self).explicit(e) == if e == event_type@ {
                old(self).explicit(e).remove(plugin_id@)
            } else {
                old(self).explicit(e)
            },
    {
        let ghost m0 = self.subscriptions@;
        let key = event_type.to_owned();
        let pid = plugin_id.to_owned();
        match self.subscriptions.index_of(&key) {
            Some(i) => {
                let (k, set) = self.subscriptions.take_at(i);
                let rest = without_string(&set, &pid);
                proof {
                    assert(string_views(rest@).to_set() =~= string_views(set@).to_set().remove(plugin_id@));
                }
                if rest.len() > 0 {
                    self.subscriptions.put_at(i, k, rest);
                } else {
                    proof {
                        assert(string_views(set@).to_set().remove(plugin_id@) =~= Set::<Seq<char>>::empty()) by {
                            assert forall|x: Seq<char>| !string_views(rest@).contains(x) by {}
                        }
                    }
                }
            },
            None => {
                assert(old(self).explicit(event_type@).remove(plugin_id@) =~= Set::<Seq<char>>::empty());
            },
        }
    }

    /// Removes every explicit subscription of a plugin.
    pub fn unsubscribe_all(&mut self, plugin_id: &str)
        requires
            old(self).wf(),
        ensures
            final(self).wf(),
            final(self).registry() == old(self).registry(),
            forall|e: Seq<char>| #[trigger] final(self).explicit(e) == old(self).explicit(e).remove(plugin_id@),
    {
        let pid = plugin_id.to_owned();
        let ghost m0 = self.subscriptions@;
        let ghost o = self.subscriptions.entry_seq();
        proof {
            self.subscriptions.lemma_entries();
        }
        let mut next: TextMap<Vec<String>> = TextMap::new();
        let n = self.subscriptions.len();
        let mut i: usize = 0;
        while i < n
            invariant
                i <= n,
                n == o.len(),
                self.wf(),
                m0 == self.subscriptions@,
                o == self.subscriptions.entry_seq(),
                keys_unique(o),
                forall|a: int| 0 <= a < o.len() ==> #[trigger] m0.contains_key(o[a].0) && m0[o[a].0] == o[a].1,
                pid@ == plugin_id@,
                next.wf(),
                forall|e: Seq<char>| #[trigger] next@.contains_key(e) ==> exists|a: int| 0 <= a < i && o[a].0 == e,
                forall|e: Seq<char>| #[trigger] next@.contains_key(e)
                    ==> string_views(next@[e]@).no_duplicates() && next@[e]@.len() > 0,
                forall|a: int| 0 <= a < i ==> listed_for(next@, #[trigger] o[a].0) == listed_for(m0, o[a].0).remove(plugin_id@),
            decreases n - i,
        {
            let (k, set) = self.subscriptions.entry_at(i);
            let rest = without_string(set, &pid);
            let ghost prev = next@;
            proof {
                assert(m0.contains_key(o[i as int].0));
                assert(string_views(rest@).to_set() =~= string_views(set@).to_set().remove(plugin_id@));
                if prev.contains_key(k@) {
                    let a = choose|a: int| 0 <= a < i && o[a].0 == k@;
                    assert(o[a].0 == o[i as int].0);
                }
            }
            if rest.len() > 0 {
                next.insert(k.clone(), rest);
            } else {
                proof {
                    assert(string_views(set@).to_set().remove(plugin_id@) =~= Set::<Seq<char>>::empty()) by {
                        assert forall|x: Seq<char>| !string_views(rest@).contains(x) by {}
                    }
                    assert(listed_for(next@, k@) =~= Set::<Seq<char>>::empty());
                }
            }
            proof {
                assert forall|a: int| 0 <= a < i + 1 implies listed_for(next@, #[trigger] o[a].0) == listed_for(m0, o[a].0).remove(plugin_id@) by {
                    if a < i {
                        assert(o[a].0 != o[i as int].0);
                        assert(listed_for(next@, o[a].0) == listed_for(prev, o[a].0));
                    }
                }
                assert forall|e: Seq<char>| #[trigger] next@.contains_key(e) implies exists|a: int| 0 <= a < i + 1 && o[a].0 == e by {
                    if e != k@ {
                        assert(prev.contains_key(e));
                        let a = choose|a: int| 0 <= a < i && o[a].0 == e;
                        assert(o[a].0 == e);
                    }
                }
            }
            i = i + 1;
        }
        proof {
            assert forall|e: Seq<char>| #[trigger] listed_for(next@, e) == listed_for(m0, e).remove(plugin_id@) by {
                if m0.contains_key(e) {
                    let a = choose|a: int| 0 <= a < o.len() && o[a].0 == e;
                    assert(listed_for(next@, o[a].0) == listed_for(m0, o[a].0).remove(plugin_id@));
                } else {
                    if next@.contains_key(e) {
                        let a = choose|a: int| 0 <= a < n && o[a].0 == e;
                        assert(m0.contains_key(o[a].0));
                    }
                    assert(listed_for(m0, e).remove(plugin_id@) =~= Set::<Seq<char>>::empty());
                }
            }
        }
        self.subscriptions = next;
    }

    /// The plugins subscribed to an event type: first those the registry
    /// lists, in registration order, then the explicit ones; none twice.
    pub fn subscribers_for(&self, event_type: &str) -> (r: Vec<String>)
        requires
            self.wf(),
        ensures
            string_views(r@).no_duplicates(),
            string_views(r@).to_set() == self.subscribers(event_type@),
    {
        let mut result = self.capabilities.plugins_subscribed_to(event_type);
        let ghost reg = string_views(result@).to_set();
        let key = event_type.to_owned();
        match self.subscriptions.get(&key) {
            Some(set) => {
                let ghost sv = string_views(set@);
                let mut i: usize = 0;
                while i < set.len()
                    invariant
                        i <= set@.len(),
                        sv == string_views(set@),
                        string_views(result@).no_duplicates(),
                        string_views(result@).to_set() == reg.union(sv.take(i as int).to_set()),
                    decreases set@.len() - i,
                {
                    let ghost before = string_views(result@);
                    proof {
                        assert(sv.take(i + 1) =~= sv.take(i as int).push(sv[i as int]));
                    }
                    if !contains_string(&result, &set[i]) {
                        result.push(set[i].clone());
                        proof {
                            assert(string_views(result@) =~= before.push(sv[i as int]));
                            assert forall|a: int, b: int| 0 <= a < string_views(result@).len() && 0 <= b < string_views(result@).len() && a != b
                                implies string_views(result@)[a] != string_views(result@)[b] by {
                                if a == before.len() {
                                    assert(before[b] == string_views(result@)[b]);
                                } else if b == before.len() {
                                    assert(before[a] == string_views(result@)[a]);
                                } else {
                                    assert(before[a] == string_views(result@)[a]);
                                    assert(before[b] == string_views(result@)[b]);
                                }
                            }
                            assert forall|x: Seq<char>| #[trigger] string_views(result@).contains(x) <==> (before.contains(x) || x == sv[i as int]) by {
                                if string_views(result@).contains(x) && x != sv[i as int] {
                                    let j = choose|j: int| 0 <= j < string_views(result@).len() && string_views(result@)[j] == x;
                                    assert(before[j] == x);
                                }
                                if before.contains(x) {
                                    let j = choose|j: int| 0 <= j < before.len() && before[j] == x;
                                    assert(string_views(result@)[j] == x);
                                }
                                if x == sv[i as int] {
                                    assert(string_views(result@)[before.len() as int] == x);
                                }
                            }
                        }
                    }
                    proof {
                        assert forall|x: Seq<char>| #[trigger] sv.take(i + 1).contains(x) <==> (sv.take(i as int).contains(x) || x == sv[i as int]) by {
                            if sv.take(i + 1).contains(x) && x != sv[i as int] {
                                let t1 = sv.take(i + 1);
                                let j = choose|j: int| 0 <= j < t1.len() && t1[j] == x;
                                assert(sv.take(i as int)[j] == x);
                            }
                            if sv.take(i as int).contains(x) {
                                let j = choose|j: int| 0 <= j < sv.take(i as int).len() && sv.take(i as int)[j] == x;
                                assert(sv.take(i + 1)[j] == x);
                            }
                            if x == sv[i as int] {
                                assert(sv.take(i + 1)[i as int] == x);
                            }
                        }
                        let before_set = reg.union(sv.take(i as int).to_set());
                        assert forall|x: Seq<char>| #[trigger] string_views(result@).contains(x) <==> (reg.contains(x) || sv.take(i + 1).contains(x)) by {
                            assert(before.to_set().contains(x) == before_set.contains(x));
                            if x == sv[i as int] {
                                assert(string_views(result@).contains(x));
                            }
                        }
                        assert(string_views(result@).to_set() =~= reg.union(sv.take(i + 1).to_set()));
                    }
                    i = i + 1;
                }
                assert(sv.take(set@.len() as int) =~= sv);
            },
            None => {
                assert(reg.union(Set::<Seq<char>>::empty()) =~= reg);
            },
        }
        result
    }
}

/// A failed delivery of an event to a plugin.
#[derive(Debug, Clone)]
pub struct DeliveryFailure {
    pub plugin_id: String,
    pub event_type: String,
    pub error: String,
}

/// The failures among the first `n` delivery outcomes, as
/// `(plugin, event type, error)`, in order.
pub open spec fn failures_among(
    subscribers: Seq<Seq<char>>,
    outcomes: Seq<Option<Seq<char>>>,
    event_type: Seq<char>,
    n: nat,
) -> Seq<(Seq<char>, Seq<char>, Seq<char>)>
    decreases n,
{
    if n == 0 {
        Seq::empty()
    } else {
        let earlier = failures_among(subscribers, outcomes, event_type, (n - 1) as nat);
        match outcomes[n - 1] {
            Some(e) => earlier.push((subscribers[n - 1], event_type, e)),
            None => earlier,
        }
    }
}

pub open spec fn failure_views(f: Seq<DeliveryFailure>) -> Seq<(Seq<char>, Seq<char>, Seq<char>)> {
    f.map_values(|d: DeliveryFailure| (d.plugin_id@, d.event_type@, d.error@))
}

/// What one dispatch reports: given the subscribers an event went to and,
/// for each, the error its delivery returned (`None` on success), the
/// failed deliveries in subscriber order. A failed delivery does not stop
/// the others.
pub fn delivery_failures(event_type: &str, subscribers: &Vec<String>, outcomes: &Vec<Option<String>>) -> (r: Vec<
    DeliveryFailure,
>)
    requires
        subscribers@.len() == outcomes@.len(),
    ensures
        failure_views(r@) == failures_among(
            string_views(subscribers@),
            outcomes@.map_values(|o: Option<String>| opt_str_view(o)),
            event_type@,
            subscribers@.len() as nat,
        ),
{
    let ghost subs = string_views(subscribers@);
    let ghost outs = outcomes@.map_values(|o: Option<String>| opt_str_view(o));
    let mut out: Vec<DeliveryFailure> = Vec::new();
    let mut i: usize = 0;
    while i < subscribers.len()
        invariant
            i <= subscribers@.len(),
            subscribers@.len() == outcomes@.len(),
            subs == string_views(subscribers@),
            outs == outcomes@.map_values(|o: Option<String>| opt_str_view(o)),
            failure_views(out@) == failures_among(subs, outs, event_type@, i as nat),
        decreases subscribers@.len() - i,
    {
        match &outcomes[i] {
            Some(e) => {
                let ghost before = out@;
                out.push(DeliveryFailure { plugin_id: subscribers[i].clone(), event_type: event_type.to_owned(), error: e.clone() });
                assert(failure_views(out@) =~= failure_views(before).push((subs[i as int], event_type@, outs[i as int]->Some_0)));
            },
            None => {},
        }
        i = i + 1;
    }
    out
}

} // verus!
