//! Mod metadata (mod.json) and the configuration that users set for a mod.
use vstd::prelude::*;
use crate::keyed::{keyed_find, keyed_insert, keyed_map, keys_unique};
use crate::text::copy_str;

verus! {

/// A configuration value. A number is held as the bits of its IEEE-754
/// double (`f64::to_bits`).
#[derive(Debug)]
pub enum ConfigValue {
    Bool(bool),
    Number(u64),
    Text(String),
}

/// The mathematical value of a [`ConfigValue`].
pub enum ValueView {
    Bool(bool),
    Number(u64),
    Text(Seq<char>),
}

impl View for ConfigValue {
    type V = ValueView;

    open spec fn view(&self) -> ValueView {
        match self {
            ConfigValue::Bool(b) => ValueView::Bool(*b),
            ConfigValue::Number(n) => ValueView::Number(*n),
            ConfigValue::Text(t) => ValueView::Text(t@),
        }
    }
}

impl ConfigValue {
    /// A copy of the value.
    pub fn copy(&self) -> (r: ConfigValue)
        ensures
            r@ == self@,
    {
        match self {
            ConfigValue::Bool(b) => ConfigValue::Bool(*b),
            ConfigValue::Number(n) => ConfigValue::Number(*n),
            ConfigValue::Text(t) => ConfigValue::Text(copy_str(t.as_str())),
        }
    }
}

/// Option of a select dropdown.
#[derive(Debug)]
pub struct SelectOption {
    pub label: String,
    pub value: String,
}

/// A configuration option that a mod offers. Numbers are held as the bits of
/// their IEEE-754 doubles.
#[derive(Debug)]
#[allow(inconsistent_fields)]
pub enum ConfigOption {
    /// Boolean checkbox.
    CheckBox { id: String, name: String, description: Option<String>, default: bool },
    /// Numeric input.
    Number {
        id: String,
        name: String,
        description: Option<String>,
        default: u64,
        min: Option<u64>,
        max: Option<u64>,
    },
    /// Text input.
    Text { id: String, name: String, description: Option<String>, default: String },
    /// Dropdown selection.
    Select {
        id: String,
        name: String,
        description: Option<String>,
        default: String,
        options: Vec<SelectOption>,
    },
    /// Section header: organizes the UI and holds no value.
    Section { id: String, name: String, default_expanded: Option<bool> },
}

/// The id of an option.
pub open spec fn option_id(o: ConfigOption) -> Seq<char> {
    match o {
        ConfigOption::CheckBox { id, .. } => id@,
        ConfigOption::Number { id, .. } => id@,
        ConfigOption::Text { id, .. } => id@,
        ConfigOption::Select { id, .. } => id@,
        ConfigOption::Section { id, .. } => id@,
    }
}

/// The default value of an option; a section has none.
pub open spec fn option_default(o: ConfigOption) -> Option<ValueView> {
    match o {
        ConfigOption::CheckBox { default, .. } => Some(ValueView::Bool(default)),
        ConfigOption::Number { default, .. } => Some(ValueView::Number(default)),
        ConfigOption::Text { default, .. } => Some(ValueView::Text(default@)),
        ConfigOption::Select { default, .. } => Some(ValueView::Text(default@)),
        ConfigOption::Section { .. } => None,
    }
}

impl ConfigOption {
    /// The default value of this option (`None` for a section).
    pub fn get_default_value(&self) -> (r: Option<ConfigValue>)
        ensures
            r matches Some(v) ==> option_default(*self) == Some(v@),
            r is None ==> option_default(*self) is None,
    {
        match self {
            ConfigOption::CheckBox { default, .. } => Some(ConfigValue::Bool(*default)),
            ConfigOption::Number { default, .. } => Some(ConfigValue::Number(*default)),
            ConfigOption::Text { default, .. } => Some(ConfigValue::Text(copy_str(default.as_str()))),
            ConfigOption::Select { default, .. } => Some(
                ConfigValue::Text(copy_str(default.as_str())),
            ),
            ConfigOption::Section { .. } => None,
        }
    }

    /// The id of this option.
    pub fn id(&self) -> (r: &String)
        ensures
            r@ == option_id(*self),
    {
        match self {
            ConfigOption::CheckBox { id, .. } => id,
            ConfigOption::Number { id, .. } => id,
            ConfigOption::Text { id, .. } => id,
            ConfigOption::Select { id, .. } => id,
            ConfigOption::Section { id, .. } => id,
        }
    }
}

/// Mod metadata from mod.json.
#[derive(Debug)]
pub struct ModConfig {
    pub name: String,
    pub description: Option<String>,
    pub author: Option<String>,
    pub website: Option<String>,
    pub version: String,
    /// Configuration options for the user.
    pub config: Vec<ConfigOption>,
}

/// Values that a user set for a mod's options, by option id.
#[derive(Debug)]
pub struct UserConfig {
    /// (option id, value) pairs; no id occurs twice.
    pub entries: Vec<(String, ConfigValue)>,
}

impl UserConfig {
    pub open spec fn wf(&self) -> bool {
        keys_unique(self.entries@)
    }

    /// The values as a map.
    pub open spec fn view_map(&self) -> Map<Seq<char>, ValueView> {
        keyed_map(self.entries@)
    }

    /// An empty configuration.
    pub fn new() -> (r: UserConfig)
        ensures
            r.wf(),
            r.view_map() == Map::<Seq<char>, ValueView>::empty(),
    {
        let r = UserConfig { entries: Vec::new() };
        assert(r.view_map() =~= Map::<Seq<char>, ValueView>::empty());
        r
    }

    /// Sets the value of an option, replacing any value there.
    pub fn insert(&mut self, id: String, value: ConfigValue)
        requires
            old(self).wf(),
        ensures
            final(self).wf(),
            final(self).view_map() == old(self).view_map().insert(id@, value@),
    {
        keyed_insert(&mut self.entries, id, value);
    }

    /// The value of an option, if set.
    pub fn get(&self, id: &str) -> (r: Option<&ConfigValue>)
        requires
            self.wf(),
        ensures
            r matches Some(v) ==> self.view_map().contains_key(id@) && self.view_map()[id@] == v@,
            r is None ==> !self.view_map().contains_key(id@),
    {
        match keyed_find(&self.entries, id) {
            Some(i) => Some(&self.entries[i].1),
            None => None,
        }
    }

    /// Whether no option is set.
    pub fn is_empty(&self) -> (b: bool)
        requires
            self.wf(),
        ensures
            b == (self.view_map() == Map::<Seq<char>, ValueView>::empty()),
    {
        if self.entries.len() == 0 {
            assert(self.view_map() =~= Map::<Seq<char>, ValueView>::empty());
            true
        } else {
            proof {
                crate::keyed::lemma_keyed_at(self.entries@, 0);
                assert(!(self.view_map() =~= Map::<Seq<char>, ValueView>::empty()));
            }
            false
        }
    }

    /// Sets every option that has a default and no value yet to its default;
    /// values already set stay.
    pub fn fill_defaults(&mut self, mod_config: &ModConfig)
        requires
            old(self).wf(),
        ensures
            final(self).wf(),
            final(self).view_map() == fill_spec(old(self).view_map(), mod_config.config@),
    {
        let mut i: usize = 0;
        let ghost start = self.view_map();
        while i < mod_config.config.len()
            invariant
                self.wf(),
                i <= mod_config.config@.len(),
                self.view_map() == fill_spec(start, mod_config.config@.take(i as int)),
            decreases mod_config.config.len() - i,
        {
            assert(mod_config.config@.take(i + 1).drop_last() =~= mod_config.config@.take(
                i as int,
            ));
            let option = &mod_config.config[i];
            if let Some(value) = option.get_default_value() {
                let id = option.id();
                if self.get(id.as_str()).is_none() {
                    self.insert(copy_str(id.as_str()), value);
                }
            }
            i = i + 1;
        }
        assert(mod_config.config@.take(mod_config.config@.len() as int) =~= mod_config.config@);
    }
}

/// The defaults of the options, by id; a later option with the same id replaces
/// an earlier one, and sections give nothing.
pub open spec fn defaults_spec(options: Seq<ConfigOption>) -> Map<Seq<char>, ValueView>
    decreases options.len(),
{
    if options.len() == 0 {
        Map::empty()
    } else {
        let m = defaults_spec(options.drop_last());
        match option_default(options.last()) {
            Some(v) => m.insert(option_id(options.last()), v),
            None => m,
        }
    }
}

/// A configuration with the defaults of the options added for ids it does not hold.
pub open spec fn fill_spec(m: Map<Seq<char>, ValueView>, options: Seq<ConfigOption>) -> Map<
    Seq<char>,
    ValueView,
>
    decreases options.len(),
{
    if options.len() == 0 {
        m
    } else {
        let f = fill_spec(m, options.drop_last());
        match option_default(options.last()) {
            Some(v) => if f.contains_key(option_id(options.last())) {
                f
            } else {
                f.insert(option_id(options.last()), v)
            },
            None => f,
        }
    }
}

impl ModConfig {
    /// The default user configuration: the default of every option that has
    /// one, by option id.
    pub fn generate_default_config(&self) -> (r: UserConfig)
        ensures
            r.wf(),
            r.view_map() == defaults_spec(self.config@),
    {
        let mut r = UserConfig::new();
        let mut i: usize = 0;
        while i < self.config.len()
            invariant
                r.wf(),
                i <= self.config@.len(),
                r.view_map() == defaults_spec(self.config@.take(i as int)),
            decreases self.config.len() - i,
        {
            assert(self.config@.take(i + 1).drop_last() =~= self.config@.take(i as int));
            let option = &self.config[i];
            if let Some(value) = option.get_default_value() {
                r.insert(copy_str(option.id().as_str()), value);
            }
            i = i + 1;
        }
        assert(self.config@.take(self.config@.len() as int) =~= self.config@);
        r
    }
}

/// Filling in defaults never changes a value that is already set, and every
/// option with a default ends up set.
pub proof fn law_fill_keeps_user_values(m: Map<Seq<char>, ValueView>, options: Seq<ConfigOption>)
    ensures
        forall|k: Seq<char>| #[trigger] m.contains_key(k) ==> fill_spec(m, options).contains_key(k)
            && fill_spec(m, options)[k] == m[k],
        forall|i: int|
            0 <= i < options.len() && option_default(options[i]) is Some ==> fill_spec(
                m,
                options,
            ).contains_key(option_id(#[trigger] options[i])),
    decreases options.len(),
{
    if options.len() > 0 {
        law_fill_keeps_user_values(m, options.drop_last());
        assert forall|i: int|
            0 <= i < options.len() && option_default(options[i]) is Some implies fill_spec(
            m,
            options,
        ).contains_key(option_id(#[trigger] options[i])) by {
            if i < options.len() - 1 {
                assert(options.drop_last()[i] == options[i]);
            }
        }
    }
}

/// Filling the defaults into an empty configuration gives the default
/// configuration when no id occurs twice among the options.
pub proof fn law_fill_empty_is_defaults(options: Seq<ConfigOption>)
    requires
        forall|a: int, b: int|
            0 <= a < b < options.len() ==> option_id(options[a]) != option_id(options[b]),
    ensures
        fill_spec(Map::empty(), options) == defaults_spec(options),
    decreases options.len(),
{
    if options.len() > 0 {
        let init = options.drop_last();
        law_fill_empty_is_defaults(init);
        lemma_defaults_keys(init);
        let last = options.last();
        if defaults_spec(init).contains_key(option_id(last)) {
            let i = choose|i: int| 0 <= i < init.len() && option_id(init[i]) == option_id(last);
            assert(option_id(options[i]) != option_id(options[options.len() - 1]));
        }
    }
}

/// Every id in the default configuration is the id of some option.
pub proof fn lemma_defaults_keys(options: Seq<ConfigOption>)
    ensures
        forall|k: Seq<char>|
            defaults_spec(options).contains_key(k) ==> exists|i: int|
                0 <= i < options.len() && option_id(options[i]) == k,
    decreases options.len(),
{
    if options.len() > 0 {
        lemma_defaults_keys(options.drop_last());
        assert forall|k: Seq<char>| defaults_spec(options).contains_key(k) implies exists|i: int|
            0 <= i < options.len() && option_id(options[i]) == k by {
            if k != option_id(options.last()) {
                assert(defaults_spec(options.drop_last()).contains_key(k));
                let i = choose|i: int|
                    0 <= i < options.drop_last().len() && option_id(options.drop_last()[i]) == k;
                assert(options[i] == options.drop_last()[i]);
            } else {
                assert(option_id(options[options.len() - 1]) == k);
            }
        }
    }
}

} // verus!
