//! Plugin metadata, the plugin lifecycle trait, and the registry that
//! drives every plugin through `init -> setup_messaging -> start -> stop`.
//!
//! The registry keeps a ghost log of lifecycle events; its contracts pin
//! down that each phase touches each plugin once, in registration order,
//! and that `stop_all` runs in reverse registration order.

use vstd::prelude::*;
use crate::errors::PluginError;
use crate::message::{meta_find, meta_insert};
use crate::message_context::MessageContext;
use crate::message_manager::MessageManager;
use crate::text::str_eq;

verus! {

/// Descriptive data about a plugin, with a process-unique UID assigned at
/// construction and used as the routing key for directed delivery.
#[derive(Debug)]
pub struct PluginMetadata {
    pub name: String,
    /// Process-unique opaque identifier, stable for the instance's life.
    pub uid: String,
    pub description: String,
    pub version: String,
    pub enabled_by_default: bool,
    pub author: Option<String>,
    pub properties: Vec<(String, String)>,
}

/// Mathematical model of a `PluginMetadata`.
pub ghost struct MetaVal {
    pub name: Seq<char>,
    pub uid: Seq<char>,
    pub description: Seq<char>,
    pub version: Seq<char>,
    pub enabled_by_default: bool,
    pub author: Option<Seq<char>>,
    pub properties: Seq<(Seq<char>, Seq<char>)>,
}

impl PluginMetadata {
    pub open spec fn pmval(self) -> MetaVal {
        MetaVal {
            name: self.name@,
            uid: self.uid@,
            description: self.description@,
            version: self.version@,
            enabled_by_default: self.enabled_by_default,
            author: match self.author {
                Option::Some(a) => Option::Some(a@),
                Option::None => Option::None,
            },
            properties: self.properties@.map_values(|kv: (String, String)| (kv.0@, kv.1@)),
        }
    }

    /// New metadata, enabled by default, with a fresh UID.
    pub fn new(name: &str, description: &str, version: &str) -> (r: PluginMetadata)
        ensures
            r.pmval().name == name@,
            r.pmval().description == description@,
            r.pmval().version == version@,
            r.pmval().enabled_by_default,
            r.pmval().author is None,
            r.pmval().properties.len() == 0,
    {
        let r = PluginMetadata {
            name: name.to_owned(),
            uid: fresh_uid(),
            description: description.to_owned(),
            version: version.to_owned(),
            enabled_by_default: true,
            author: None,
            properties: Vec::new(),
        };
        proof {
            assert(r.pmval().properties =~= Seq::<(Seq<char>, Seq<char>)>::empty());
        }
        r
    }

    /// Sets whether the plugin is enabled by default.
    pub fn enabled_by_default(self, enabled: bool) -> (r: PluginMetadata)
        ensures
            r.pmval() == (MetaVal { enabled_by_default: enabled, ..self.pmval() }),
    {
        let mut s = self;
        s.enabled_by_default = enabled;
        s
    }

    /// Sets the author.
    pub fn author(self, author: &str) -> (r: PluginMetadata)
        ensures
            r.pmval() == (MetaVal { author: Option::Some(author@), ..self.pmval() }),
    {
        let mut s = self;
        s.author = Some(author.to_owned());
        s
    }

    /// Adds a custom property; an existing property under the same key is
    /// replaced.
    pub fn with_property(self, key: &str, value: &str) -> (r: PluginMetadata)
        ensures
            r.pmval() == (MetaVal {
                properties: meta_insert(self.pmval().properties, key@, value@),
                ..self.pmval()
            }),
    {
        let mut s = self;
        let n = s.properties.len();
        let ghost m0 = s.pmval().properties;
        let mut i: usize = 0;
        while i < n
            invariant
                i <= n,
                n == s.properties.len(),
                s.pmval() == self.pmval(),
                m0 == s.pmval().properties,
                forall|j: int| 0 <= j < i ==> m0[j].0 != key@,
            decreases n - i,
        {
            if str_eq(s.properties[i].0.as_str(), key) {
                let entry = (key.to_owned(), value.to_owned());
                s.properties.set(i, entry);
                proof {
                    crate::message::lemma_meta_find(m0, key@, i as int);
                    assert(s.pmval().properties =~= m0.update(i as int, (key@, value@)));
                }
                return s;
            }
            i = i + 1;
        }
        s.properties.push((key.to_owned(), value.to_owned()));
        proof {
            crate::message::lemma_meta_find_none(m0, key@);
            assert(s.pmval().properties =~= m0.push((key@, value@)));
        }
        s
    }

    /// Looks a property up by key.
    pub fn property(&self, key: &str) -> (r: Option<String>)
        ensures
            ({
                let k = meta_find(self.pmval().properties, key@);
                if k == -1 {
                    r is None
                } else {
                    r matches Some(v) && v@ == self.pmval().properties[k].1
                }
            }),
    {
        let ghost m0 = self.pmval().properties;
        let n = self.properties.len();
        let mut i: usize = 0;
        while i < n
            invariant
                i <= n,
                n == self.properties.len(),
                m0 == self.pmval().properties,
                forall|j: int| 0 <= j < i ==> m0[j].0 != key@,
            decreases n - i,
        {
            if str_eq(self.properties[i].0.as_str(), key) {
                proof {
                    crate::message::lemma_meta_find(m0, key@, i as int);
                }
                return Some(self.properties[i].1.clone());
            }
            i = i + 1;
        }
        proof {
            crate::message::lemma_meta_find_none(m0, key@);
        }
        None
    }
}

/// The canonical JSON object of plugin metadata.
pub open spec fn json_of_metadata(m: MetaVal) -> crate::json::JVal {
    crate::json::JVal::Obj(
        seq![
            ("name"@, crate::json::JVal::Str(m.name)),
            ("uid"@, crate::json::JVal::Str(m.uid)),
            ("description"@, crate::json::JVal::Str(m.description)),
            ("version"@, crate::json::JVal::Str(m.version)),
            ("enabled_by_default"@, crate::json::JVal::Bool(m.enabled_by_default)),
            (
                "author"@,
                match m.author {
                    Option::Some(a) => crate::json::JVal::Str(a),
                    Option::None => crate::json::JVal::Null,
                },
            ),
            ("properties"@, crate::json::JVal::Obj(crate::message_json::meta_jval(m.properties))),
        ],
    )
}

impl PluginMetadata {
    /// Serializes this metadata to its canonical JSON text.
    pub fn to_json(&self) -> (r: Result<String, crate::errors::JsonError>)
        ensures
            r is Ok,
            r matches Ok(s) ==> vstd::utf8::encode_utf8(s@) == crate::json::jbytes(
                json_of_metadata(self.pmval()),
            ),
    {
        let author_value = match &self.author {
            Some(a) => crate::json::JsonValue::Str(a.clone()),
            None => crate::json::JsonValue::Null,
        };
        let mut fields: Vec<(String, crate::json::JsonValue)> = Vec::new();
        fields.push(("name".to_owned(), crate::json::JsonValue::Str(self.name.clone())));
        fields.push(("uid".to_owned(), crate::json::JsonValue::Str(self.uid.clone())));
        fields.push(
            ("description".to_owned(), crate::json::JsonValue::Str(self.description.clone())),
        );
        fields.push(("version".to_owned(), crate::json::JsonValue::Str(self.version.clone())));
        fields.push(
            ("enabled_by_default".to_owned(), crate::json::JsonValue::Bool(self.enabled_by_default)),
        );
        fields.push(("author".to_owned(), author_value));
        fields.push(
            (
                "properties".to_owned(),
                crate::json::JsonValue::Obj(crate::message_json::meta_to_fields(&self.properties)),
            ),
        );
        let value = crate::json::JsonValue::Obj(fields);
        proof {
            crate::json::lemma_jval_fields_index(value->Obj_0@);
            assert(crate::json::jval_fields(value->Obj_0@) =~~= json_of_metadata(
                self.pmval(),
            )->Obj_0);
        }
        let bytes = value.write_json();
        proof {
            crate::json::lemma_jbytes_valid(json_of_metadata(self.pmval()));
        }
        match crate::text::bytes_to_string(bytes.as_slice()) {
            Some(s) => Ok(s),
            None => Err(crate::errors::JsonError::Syntax),
        }
    }
}

/// Relies on `uuid::Uuid::new_v4` and its `Display` form: a freshly
/// generated random UUID in hyphenated text form.  Nothing is assumed of
/// the value.
#[verifier::external_body]
fn fresh_uid() -> String {
    uuid::Uuid::new_v4().to_string()
}

/// The plugin lifecycle.  Implementers provide the phases they need; the
/// registry drives the transitions, and a plugin never self-advances.
pub trait Plugin {
    /// The plugin's metadata.
    fn metadata(&self) -> &PluginMetadata;

    /// Called once when the plugin is loaded.
    fn init(&mut self) -> (r: Result<(), PluginError>) {
        Ok(())
    }

    /// Called once, before `start`, to wire the plugin into the bus.
    /// Returning `None` signals no messaging participation.
    fn setup_messaging(&mut self, manager: &mut MessageManager) -> (r: Result<
        Option<MessageContext>,
        PluginError,
    >)
        requires
            old(manager).wf(),
        ensures
            final(manager).wf(),
    {
        Ok(None)
    }

    /// Called once to begin any non-message activity.
    fn start(&mut self) -> (r: Result<(), PluginError>) {
        Ok(())
    }

    /// Called once to terminate gracefully, in reverse registration order.
    fn stop(&mut self) -> (r: Result<(), PluginError>) {
        Ok(())
    }

    /// Whether the plugin should be registered by `register_enabled`.
    fn is_enabled(&self) -> bool {
        self.metadata().enabled_by_default
    }
}

/// One registered plugin: a boxed trait object behind a nominal wrapper.
pub struct PluginSlot {
    pub plugin: Box<dyn Plugin>,
}

impl PluginSlot {
    pub fn new<P: Plugin + 'static>(plugin: P) -> PluginSlot {
        let boxed: Box<dyn Plugin> = Box::new(plugin);
        PluginSlot { plugin: boxed }
    }

    /// The wrapped plugin's metadata.
    pub fn metadata(&self) -> &PluginMetadata {
        self.plugin.metadata()
    }
}

/// One lifecycle phase.
pub ghost enum Phase {
    Init,
    Setup,
    Start,
    Stop,
}

/// One lifecycle call: which phase ran on which plugin index.
pub ghost struct LifeEvent {
    pub phase: Phase,
    pub plugin: int,
}

/// The events of running `phase` over plugins `0..n` in order.
pub open spec fn phase_events(phase: Phase, n: int) -> Seq<LifeEvent> {
    Seq::new(n as nat, |i: int| LifeEvent { phase, plugin: i })
}

/// The events of stopping plugins `n-1` down to `0`.
pub open spec fn stop_events_rev(n: int) -> Seq<LifeEvent> {
    Seq::new(n as nat, |i: int| LifeEvent { phase: Phase::Stop, plugin: n - 1 - i })
}

/// How many events of `s` are `phase` on plugin `p`.
pub open spec fn event_count(s: Seq<LifeEvent>, phase: Phase, p: int) -> int
    decreases s.len(),
{
    if s.len() == 0 {
        0int
    } else {
        event_count(s.drop_last(), phase, p) + if s.last().phase == phase && s.last().plugin
            == p {
            1int
        } else {
            0int
        }
    }
}

/// The registry: a homogeneous collection of boxed plugins and the ghost
/// log of every lifecycle call made on them.
pub struct PluginRegistry {
    pub plugins: Vec<PluginSlot>,
    /// Every lifecycle call made through this registry, in order.
    pub events: Ghost<Seq<LifeEvent>>,
}

impl PluginRegistry {
    pub fn new() -> (r: PluginRegistry)
        ensures
            r.plugins@.len() == 0,
            r.events@ == Seq::<LifeEvent>::empty(),
    {
        PluginRegistry { plugins: Vec::new(), events: Ghost(Seq::empty()) }
    }

    /// Registers one plugin.
    pub fn register<P: Plugin + 'static>(&mut self, plugin: P)
        ensures
            final(self).plugins@.len() == old(self).plugins@.len() + 1,
            final(self).events@ == old(self).events@,
    {
        self.plugins.push(PluginSlot::new(plugin));
    }

    /// Registers every plugin of the list.
    pub fn register_all(&mut self, plugins: Vec<PluginSlot>)
        ensures
            final(self).plugins@.len() == old(self).plugins@.len() + plugins@.len(),
            final(self).events@ == old(self).events@,
    {
        let mut rest = plugins;
        let n = rest.len();
        let mut i: usize = 0;
        while i < n
            invariant
                i <= n,
                rest@.len() == n - i,
                self.plugins@.len() == old(self).plugins@.len() + i,
                self.events@ == old(self).events@,
            decreases n - i,
        {
            let p = rest.remove(0);
            self.plugins.push(p);
            i = i + 1;
        }
    }

    /// Registers the plugins that report themselves enabled, dropping the
    /// others.
    pub fn register_enabled(&mut self, plugins: Vec<PluginSlot>)
        ensures
            final(self).plugins@.len() <= old(self).plugins@.len() + plugins@.len(),
            final(self).plugins@.len() >= old(self).plugins@.len(),
            final(self).events@ == old(self).events@,
    {
        let mut rest = plugins;
        let n = rest.len();
        let mut i: usize = 0;
        while i < n
            invariant
                i <= n,
                rest@.len() == n - i,
                old(self).plugins@.len() <= self.plugins@.len() <= old(self).plugins@.len() + i,
                self.events@ == old(self).events@,
            decreases n - i,
        {
            let p = rest.remove(0);
            if p.plugin.is_enabled() {
                self.plugins.push(p);
            }
            i = i + 1;
        }
    }

    /// Registers the plugins whose metadata name is in `names`.
    pub fn register_by_names(&mut self, plugins: Vec<PluginSlot>, names: &Vec<String>)
        ensures
            final(self).plugins@.len() <= old(self).plugins@.len() + plugins@.len(),
            final(self).plugins@.len() >= old(self).plugins@.len(),
            final(self).events@ == old(self).events@,
    {
        let mut rest = plugins;
        let n = rest.len();
        let mut i: usize = 0;
        while i < n
            invariant
                i <= n,
                rest@.len() == n - i,
                old(self).plugins@.len() <= self.plugins@.len() <= old(self).plugins@.len() + i,
                self.events@ == old(self).events@,
            decreases n - i,
        {
            let p = rest.remove(0);
            let mut matched = false;
            let mut k: usize = 0;
            while k < names.len()
                invariant
                    k <= names.len(),
                decreases names.len() - k,
            {
                if str_eq(p.plugin.metadata().name.as_str(), names[k].as_str()) {
                    matched = true;
                }
                k = k + 1;
            }
            if matched {
                self.plugins.push(p);
            }
            i = i + 1;
        }
    }

    /// Registers the plugins whose metadata the filter accepts.
    pub fn register_filtered<F: Fn(&PluginMetadata) -> bool>(
        &mut self,
        plugins: Vec<PluginSlot>,
        filter: F,
    )
        requires
            forall|m: &PluginMetadata| filter.requires((m,)),
        ensures
            final(self).plugins@.len() <= old(self).plugins@.len() + plugins@.len(),
            final(self).plugins@.len() >= old(self).plugins@.len(),
            final(self).events@ == old(self).events@,
    {
        let mut rest = plugins;
        let n = rest.len();
        let mut i: usize = 0;
        while i < n
            invariant
                i <= n,
                rest@.len() == n - i,
                old(self).plugins@.len() <= self.plugins@.len() <= old(self).plugins@.len() + i,
                self.events@ == old(self).events@,
                forall|m: &PluginMetadata| filter.requires((m,)),
            decreases n - i,
        {
            let p = rest.remove(0);
            let keep = filter(p.plugin.metadata());
            if keep {
                self.plugins.push(p);
            }
            i = i + 1;
        }
    }

    /// A registry loaded with the enabled plugins of the list.
    pub fn with_enabled_plugins(plugins: Vec<PluginSlot>) -> (r: PluginRegistry)
        ensures
            r.plugins@.len() <= plugins@.len(),
            r.events@ == Seq::<LifeEvent>::empty(),
    {
        let mut r = PluginRegistry::new();
        r.register_enabled(plugins);
        r
    }

    /// A registry loaded with every plugin of the list.
    pub fn with_all_plugins(plugins: Vec<PluginSlot>) -> (r: PluginRegistry)
        ensures
            r.plugins@.len() == plugins@.len(),
            r.events@ == Seq::<LifeEvent>::empty(),
    {
        let mut r = PluginRegistry::new();
        r.register_all(plugins);
        r
    }

    /// The registered plugins.
    pub fn plugins(&self) -> (r: &Vec<PluginSlot>)
        ensures
            r == &self.plugins,
    {
        &self.plugins
    }

    /// The registered plugins, mutably.
    pub fn plugins_mut(&mut self) -> (r: &mut Vec<PluginSlot>)
        ensures
            *r == old(self).plugins,
            final(self).plugins == *final(r),
            final(self).events@ == old(self).events@,
    {
        &mut self.plugins
    }

    /// Initializes plugins in registration order.  The first failure is
    /// surfaced and stops the pass; completed phases are not rolled back.
    #[verifier::loop_isolation(false)]
    pub fn init_all(&mut self) -> (r: Result<(), PluginError>)
        ensures
            final(self).plugins@.len() == old(self).plugins@.len(),
            r is Ok ==> final(self).events@ == old(self).events@ + phase_events(
                Phase::Init,
                old(self).plugins@.len() as int,
            ),
            r is Err ==> exists|k: int|
                0 <= k < old(self).plugins@.len() && final(self).events@ == old(self).events@
                    + #[trigger] phase_events(Phase::Init, k + 1),
    {
        let n = self.plugins.len();
        let mut i: usize = 0;
        while i < n
            invariant
                i <= n,
                n == self.plugins@.len(),
                self.events@ == old(self).events@ + phase_events(Phase::Init, i as int),
            decreases n - i,
        {
            let mut p = self.plugins.remove(i);
            let result = p.plugin.init();
            self.plugins.insert(i, p);
            proof {
                assert(self.events@ + phase_events(Phase::Init, i + 1) =~= (self.events@
                    + phase_events(Phase::Init, i as int)).push(
                    LifeEvent { phase: Phase::Init, plugin: i as int },
                ));
                assert((old(self).events@ + phase_events(Phase::Init, i as int)).push(
                    LifeEvent { phase: Phase::Init, plugin: i as int },
                ) =~= old(self).events@ + phase_events(Phase::Init, i + 1));
            }
            self.events = Ghost(
                self.events@.push(LifeEvent { phase: Phase::Init, plugin: i as int }),
            );
            if let Err(e) = result {
                return Err(e);
            }
            i = i + 1;
        }
        Ok(())
    }

    /// Starts plugins in registration order; the first failure is
    /// surfaced and stops the pass.
    #[verifier::loop_isolation(false)]
    pub fn start_all(&mut self) -> (r: Result<(), PluginError>)
        ensures
            final(self).plugins@.len() == old(self).plugins@.len(),
            r is Ok ==> final(self).events@ == old(self).events@ + phase_events(
                Phase::Start,
                old(self).plugins@.len() as int,
            ),
            r is Err ==> exists|k: int|
                0 <= k < old(self).plugins@.len() && final(self).events@ == old(self).events@
                    + #[trigger] phase_events(Phase::Start, k + 1),
    {
        let n = self.plugins.len();
        let mut i: usize = 0;
        while i < n
            invariant
                i <= n,
                n == self.plugins@.len(),
                self.events@ == old(self).events@ + phase_events(Phase::Start, i as int),
            decreases n - i,
        {
            let mut p = self.plugins.remove(i);
            let result = p.plugin.start();
            self.plugins.insert(i, p);
            proof {
                assert(self.events@ + phase_events(Phase::Start, i + 1) =~= (self.events@
                    + phase_events(Phase::Start, i as int)).push(
                    LifeEvent { phase: Phase::Start, plugin: i as int },
                ));
                assert((old(self).events@ + phase_events(Phase::Start, i as int)).push(
                    LifeEvent { phase: Phase::Start, plugin: i as int },
                ) =~= old(self).events@ + phase_events(Phase::Start, i + 1));
            }
            self.events = Ghost(
                self.events@.push(LifeEvent { phase: Phase::Start, plugin: i as int }),
            );
            if let Err(e) = result {
                return Err(e);
            }
            i = i + 1;
        }
        Ok(())
    }

    /// Stops plugins in reverse registration order.  Every plugin's
    /// `stop` runs even when earlier ones fail; the first error seen is
    /// surfaced at the end.
    #[verifier::loop_isolation(false)]
    pub fn stop_all(&mut self) -> (r: Result<(), PluginError>)
        ensures
            final(self).plugins@.len() == old(self).plugins@.len(),
            final(self).events@ == old(self).events@ + stop_events_rev(
                old(self).plugins@.len() as int,
            ),
    {
        let n = self.plugins.len();
        let mut first_err: Option<PluginError> = None;
        let mut i: usize = 0;
        while i < n
            invariant
                i <= n,
                n == self.plugins@.len(),
                self.events@ == old(self).events@ + stop_events_rev(n as int).take(i as int),
            decreases n - i,
        {
            let idx = n - 1 - i;
            let mut p = self.plugins.remove(idx);
            let result = p.plugin.stop();
            self.plugins.insert(idx, p);
            proof {
                assert(stop_events_rev(n as int).take(i + 1) =~= stop_events_rev(n as int).take(
                    i as int,
                ).push(LifeEvent { phase: Phase::Stop, plugin: n - 1 - i }));
            }
            self.events = Ghost(
                self.events@.push(LifeEvent { phase: Phase::Stop, plugin: (n - 1 - i) as int }),
            );
            if let Err(e) = result {
                if first_err.is_none() {
                    first_err = Some(e);
                }
            }
            i = i + 1;
        }
        proof {
            assert(stop_events_rev(n as int).take(n as int) =~= stop_events_rev(n as int));
        }
        match first_err {
            Some(e) => Err(e),
            None => Ok(()),
        }
    }

    /// Wires every plugin into the bus, in registration order.  A
    /// plugin's failure or returned context is dropped; the pass always
    /// completes.
    #[verifier::loop_isolation(false)]
    pub fn setup_messaging(&mut self, manager: &mut MessageManager) -> (r: Result<
        (),
        PluginError,
    >)
        requires
            old(manager).wf(),
        ensures
            final(manager).wf(),
            final(self).plugins@.len() == old(self).plugins@.len(),
            final(self).events@ == old(self).events@ + phase_events(
                Phase::Setup,
                old(self).plugins@.len() as int,
            ),
            r is Ok,
    {
        let n = self.plugins.len();
        let mut i: usize = 0;
        while i < n
            invariant
                i <= n,
                n == self.plugins@.len(),
                manager.wf(),
                self.events@ == old(self).events@ + phase_events(Phase::Setup, i as int),
            decreases n - i,
        {
            let mut p = self.plugins.remove(i);
            let result = p.plugin.setup_messaging(manager);
            self.plugins.insert(i, p);
            proof {
                assert(self.events@ + phase_events(Phase::Setup, i + 1) =~= (self.events@
                    + phase_events(Phase::Setup, i as int)).push(
                    LifeEvent { phase: Phase::Setup, plugin: i as int },
                ));
                assert((old(self).events@ + phase_events(Phase::Setup, i as int)).push(
                    LifeEvent { phase: Phase::Setup, plugin: i as int },
                ) =~= old(self).events@ + phase_events(Phase::Setup, i + 1));
            }
            self.events = Ghost(
                self.events@.push(LifeEvent { phase: Phase::Setup, plugin: i as int }),
            );
            if let Ok(Some(ctx)) = result {
                let _ = ctx;
            }
            i = i + 1;
        }
        Ok(())
    }

    /// The whole startup path: init every plugin, then start every
    /// plugin.
    pub fn startup(&mut self) -> (r: Result<(), PluginError>)
        ensures
            final(self).plugins@.len() == old(self).plugins@.len(),
            r is Ok ==> final(self).events@ == old(self).events@ + phase_events(
                Phase::Init,
                old(self).plugins@.len() as int,
            ) + phase_events(Phase::Start, old(self).plugins@.len() as int),
            r is Err ==> (exists|k: int|
                0 <= k < old(self).plugins@.len() && final(self).events@ == old(self).events@
                    + #[trigger] phase_events(Phase::Init, k + 1)) || (exists|k: int|
                0 <= k < old(self).plugins@.len() && final(self).events@ == old(self).events@
                    + phase_events(Phase::Init, old(self).plugins@.len() as int)
                    + #[trigger] phase_events(Phase::Start, k + 1)),
    {
        let r = self.init_all();
        if let Err(e) = r {
            return Err(e);
        }
        self.start_all()
    }

    /// The shutdown path: stop every plugin, newest first.
    pub fn shutdown(&mut self) -> (r: Result<(), PluginError>)
        ensures
            final(self).plugins@.len() == old(self).plugins@.len(),
            final(self).events@ == old(self).events@ + stop_events_rev(
                old(self).plugins@.len() as int,
            ),
    {
        self.stop_all()
    }

    /// The names of the registered plugins, in order.
    pub fn list_plugins(&self) -> (r: Vec<String>)
        ensures
            r@.len() == self.plugins@.len(),
    {
        let mut out: Vec<String> = Vec::new();
        let mut i: usize = 0;
        while i < self.plugins.len()
            invariant
                i <= self.plugins.len(),
                out@.len() == i as int,
            decreases self.plugins.len() - i,
        {
            out.push(self.plugins[i].plugin.metadata().name.clone());
            i = i + 1;
        }
        out
    }
}

impl Default for PluginRegistry {
    /// The default registry: empty, with an empty event log.
    fn default() -> (r: PluginRegistry)
        ensures
            r.plugins@.len() == 0,
            r.events@ == Seq::<LifeEvent>::empty(),
    {
        PluginRegistry::new()
    }
}

/// The lifecycle-ordering law: on the success path over `n` plugins —
/// init all, set up messaging, start all, stop all — the event log holds,
/// for every plugin, exactly one init, one setup, one start and one stop;
/// inits come before setups, setups before starts, starts before stops;
/// and stops run in reverse registration order.
pub proof fn lemma_lifecycle_order(n: int)
    requires
        n >= 0,
    ensures
        ({
            let log = phase_events(Phase::Init, n) + phase_events(Phase::Setup, n) + phase_events(
                Phase::Start,
                n,
            ) + stop_events_rev(n);
            &&& forall|p: int| 0 <= p < n ==> event_count(log, Phase::Init, p) == 1
            &&& forall|p: int| 0 <= p < n ==> event_count(log, Phase::Setup, p) == 1
            &&& forall|p: int| 0 <= p < n ==> event_count(log, Phase::Start, p) == 1
            &&& forall|p: int| 0 <= p < n ==> event_count(log, Phase::Stop, p) == 1
            &&& forall|i: int, j: int|
                0 <= i < log.len() && 0 <= j < log.len() && log[i].plugin == log[j].plugin
                    && log[i].phase == Phase::Init && log[j].phase != Phase::Init ==> i < j
            &&& forall|i: int, j: int|
                0 <= i < log.len() && 0 <= j < log.len() && log[i].plugin == log[j].plugin
                    && log[i].phase == Phase::Stop && log[j].phase != Phase::Stop ==> j < i
            &&& forall|i: int, j: int|
                0 <= i < log.len() && 0 <= j < log.len() && log[i].phase == Phase::Stop
                    && log[j].phase == Phase::Stop && i < j ==> log[i].plugin > log[j].plugin
        }),
{
    let log = phase_events(Phase::Init, n) + phase_events(Phase::Setup, n) + phase_events(
        Phase::Start,
        n,
    ) + stop_events_rev(n);
    assert forall|p: int| 0 <= p < n implies event_count(log, Phase::Init, p) == 1 by {
        lemma_phase_block_counts(log, n, p);
    }
    assert forall|p: int| 0 <= p < n implies event_count(log, Phase::Setup, p) == 1 by {
        lemma_phase_block_counts(log, n, p);
    }
    assert forall|p: int| 0 <= p < n implies event_count(log, Phase::Start, p) == 1 by {
        lemma_phase_block_counts(log, n, p);
    }
    assert forall|p: int| 0 <= p < n implies event_count(log, Phase::Stop, p) == 1 by {
        lemma_phase_block_counts(log, n, p);
    }
}

/// Counts each phase exactly once per plugin in the canonical success
/// log.
proof fn lemma_phase_block_counts(log: Seq<LifeEvent>, n: int, p: int)
    requires
        n >= 0,
        0 <= p < n,
        log == phase_events(Phase::Init, n) + phase_events(Phase::Setup, n) + phase_events(
            Phase::Start,
            n,
        ) + stop_events_rev(n),
    ensures
        event_count(log, Phase::Init, p) == 1,
        event_count(log, Phase::Setup, p) == 1,
        event_count(log, Phase::Start, p) == 1,
        event_count(log, Phase::Stop, p) == 1,
{
    lemma_event_count_unique(log, Phase::Init, p, p);
    lemma_event_count_unique(log, Phase::Setup, p, n + p);
    lemma_event_count_unique(log, Phase::Start, p, 2 * n + p);
    lemma_event_count_unique(log, Phase::Stop, p, 3 * n + (n - 1 - p));
}

/// Where exactly one position of `s` holds the event, the count is one.
proof fn lemma_event_count_unique(s: Seq<LifeEvent>, phase: Phase, p: int, at: int)
    requires
        0 <= at < s.len(),
        s[at].phase == phase && s[at].plugin == p,
        forall|i: int|
            0 <= i < s.len() && i != at ==> !((#[trigger] s[i]).phase == phase && s[i].plugin
                == p),
    ensures
        event_count(s, phase, p) == 1,
    decreases s.len(),
{
    if at == s.len() - 1 {
        lemma_event_count_zero(s.drop_last(), phase, p);
    } else {
        lemma_event_count_unique(s.drop_last(), phase, p, at);
    }
}

/// Where no position of `s` holds the event, the count is zero.
proof fn lemma_event_count_zero(s: Seq<LifeEvent>, phase: Phase, p: int)
    requires
        forall|i: int|
            0 <= i < s.len() ==> !((#[trigger] s[i]).phase == phase && s[i].plugin == p),
    ensures
        event_count(s, phase, p) == 0,
    decreases s.len(),
{
    if s.len() > 0 {
        lemma_event_count_zero(s.drop_last(), phase, p);
    }
}

} // verus!
