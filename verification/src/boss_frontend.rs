use vstd::prelude::*;
use crate::text::chars_of;

verus! {

/// What to do when a file exists on both sides and the destination copy is newer (or older)
/// than the source copy.
#[derive(Clone, Copy, Debug, PartialEq, Eq, Structural)]
pub enum DestFileUpdateBehaviour {
    /// Ask the user (where nobody can answer, this is the same as `Error`).
    Prompt,
    /// Stop the sync with an error, leaving the destination file alone.
    Error,
    /// Leave the destination file alone and carry on.
    Skip,
    /// Overwrite the destination file and carry on.
    Overwrite,
}

/// What to do when an entry on the destination side needs deleting.
#[derive(Clone, Copy, Debug, PartialEq, Eq, Structural)]
pub enum DestEntryNeedsDeletingBehaviour {
    Prompt,
    Error,
    /// Leave the entry alone and carry on (which may make a later step fail).
    Skip,
    Delete,
}

/// What to do when the whole destination root needs deleting.
#[derive(Clone, Copy, Debug, PartialEq, Eq, Structural)]
pub enum DestRootNeedsDeletingBehaviour {
    Prompt,
    Error,
    /// Leave the destination alone and end the sync without an error.
    Skip,
    Delete,
}

/// One setting for all the destructive cases at once.
#[derive(Clone, Copy, Debug, PartialEq, Eq, Structural)]
pub enum AllDestructiveBehaviour {
    Prompt,
    Error,
    Skip,
    /// Overwrite or delete as needed.
    Proceed,
}

/// A character with ASCII letters made lower case.
pub open spec fn ascii_lower(c: char) -> char {
    if 'A' <= c && c <= 'Z' { ((c as u32) + 32) as char } else { c }
}

/// Whether two texts are equal apart from the case of ASCII letters.
pub open spec fn eq_ignore_ascii_case(a: Seq<char>, b: Seq<char>) -> bool {
    a.len() == b.len() && forall|i: int| 0 <= i < a.len() ==> ascii_lower(#[trigger] a[i]) == ascii_lower(b[i])
}

fn lower(c: char) -> (r: char)
    ensures
        r == ascii_lower(c),
{
    if 'A' <= c && c <= 'Z' {
        let v: u32 = c as u32 + 32;
        proof {
            assert(v <= 0x7a);
        }
        char_from_ascii(v)
    } else {
        c
    }
}

/// The character with an ASCII code.
fn char_from_ascii(v: u32) -> (r: char)
    requires
        v < 128,
    ensures
        r == v as char,
{
    let b: u8 = v as u8;
    let r = b as char;
    r
}

/// Compares two texts, ignoring the case of ASCII letters.
pub fn text_eq_ignore_ascii_case(a: &str, b: &str) -> (r: bool)
    ensures
        r == eq_ignore_ascii_case(a@, b@),
{
    let ac = chars_of(a);
    let bc = chars_of(b);
    if ac.len() != bc.len() {
        return false;
    }
    let mut i: usize = 0;
    while i < ac.len()
        invariant
            ac@ == a@,
            bc@ == b@,
            ac@.len() == bc@.len(),
            i <= ac@.len(),
            forall|j: int| 0 <= j < i ==> ascii_lower(#[trigger] a@[j]) == ascii_lower(b@[j]),
        decreases ac.len() - i,
    {
        if lower(ac[i]) != lower(bc[i]) {
            return false;
        }
        i = i + 1;
    }
    true
}

/// The error for a value that names no variant.
pub open spec fn invalid_variant(s: Seq<char>) -> Seq<char> {
    "Invalid variant: "@ + s
}

fn invalid_variant_error(s: &str) -> (r: String)
    ensures
        r@ == invalid_variant(s@),
{
    let mut r = String::from_str("Invalid variant: ");
    r.append(s);
    r
}

/// The behaviour named by a text (its lower-case name, in any case).
pub open spec fn spec_parse_file_update(s: Seq<char>) -> Result<DestFileUpdateBehaviour, Seq<char>> {
    if eq_ignore_ascii_case(s, "prompt"@) {
        Ok(DestFileUpdateBehaviour::Prompt)
    } else if eq_ignore_ascii_case(s, "error"@) {
        Ok(DestFileUpdateBehaviour::Error)
    } else if eq_ignore_ascii_case(s, "skip"@) {
        Ok(DestFileUpdateBehaviour::Skip)
    } else if eq_ignore_ascii_case(s, "overwrite"@) {
        Ok(DestFileUpdateBehaviour::Overwrite)
    } else {
        Err(invalid_variant(s))
    }
}

/// The behaviour named by a text (its lower-case name, in any case).
pub open spec fn spec_parse_entry_delete(s: Seq<char>) -> Result<DestEntryNeedsDeletingBehaviour, Seq<char>> {
    if eq_ignore_ascii_case(s, "prompt"@) {
        Ok(DestEntryNeedsDeletingBehaviour::Prompt)
    } else if eq_ignore_ascii_case(s, "error"@) {
        Ok(DestEntryNeedsDeletingBehaviour::Error)
    } else if eq_ignore_ascii_case(s, "skip"@) {
        Ok(DestEntryNeedsDeletingBehaviour::Skip)
    } else if eq_ignore_ascii_case(s, "delete"@) {
        Ok(DestEntryNeedsDeletingBehaviour::Delete)
    } else {
        Err(invalid_variant(s))
    }
}

/// The behaviour named by a text (its lower-case name, in any case).
pub open spec fn spec_parse_root_delete(s: Seq<char>) -> Result<DestRootNeedsDeletingBehaviour, Seq<char>> {
    if eq_ignore_ascii_case(s, "prompt"@) {
        Ok(DestRootNeedsDeletingBehaviour::Prompt)
    } else if eq_ignore_ascii_case(s, "error"@) {
        Ok(DestRootNeedsDeletingBehaviour::Error)
    } else if eq_ignore_ascii_case(s, "skip"@) {
        Ok(DestRootNeedsDeletingBehaviour::Skip)
    } else if eq_ignore_ascii_case(s, "delete"@) {
        Ok(DestRootNeedsDeletingBehaviour::Delete)
    } else {
        Err(invalid_variant(s))
    }
}

/// The behaviour named by a text (its lower-case name, in any case).
pub open spec fn spec_parse_all_destructive(s: Seq<char>) -> Result<AllDestructiveBehaviour, Seq<char>> {
    if eq_ignore_ascii_case(s, "prompt"@) {
        Ok(AllDestructiveBehaviour::Prompt)
    } else if eq_ignore_ascii_case(s, "error"@) {
        Ok(AllDestructiveBehaviour::Error)
    } else if eq_ignore_ascii_case(s, "skip"@) {
        Ok(AllDestructiveBehaviour::Skip)
    } else if eq_ignore_ascii_case(s, "proceed"@) {
        Ok(AllDestructiveBehaviour::Proceed)
    } else {
        Err(invalid_variant(s))
    }
}

/// Whether a result agrees with the specified one, taking strings by their view.
pub open spec fn result_is<T>(r: Result<T, String>, expected: Result<T, Seq<char>>) -> bool {
    match (r, expected) {
        (Ok(a), Ok(b)) => a == b,
        (Err(a), Err(b)) => a@ == b,
        _ => false,
    }
}

impl DestFileUpdateBehaviour {
    /// Parses a behaviour from its name, ignoring ASCII case.
    pub fn from_str(s: &str) -> (r: Result<DestFileUpdateBehaviour, String>)
        ensures
            result_is(r, spec_parse_file_update(s@)),
    {
        if text_eq_ignore_ascii_case(s, "prompt") {
            Ok(DestFileUpdateBehaviour::Prompt)
        } else if text_eq_ignore_ascii_case(s, "error") {
            Ok(DestFileUpdateBehaviour::Error)
        } else if text_eq_ignore_ascii_case(s, "skip") {
            Ok(DestFileUpdateBehaviour::Skip)
        } else if text_eq_ignore_ascii_case(s, "overwrite") {
            Ok(DestFileUpdateBehaviour::Overwrite)
        } else {
            Err(invalid_variant_error(s))
        }
    }
}

impl DestEntryNeedsDeletingBehaviour {
    /// Parses a behaviour from its name, ignoring ASCII case.
    pub fn from_str(s: &str) -> (r: Result<DestEntryNeedsDeletingBehaviour, String>)
        ensures
            result_is(r, spec_parse_entry_delete(s@)),
    {
        if text_eq_ignore_ascii_case(s, "prompt") {
            Ok(DestEntryNeedsDeletingBehaviour::Prompt)
        } else if text_eq_ignore_ascii_case(s, "error") {
            Ok(DestEntryNeedsDeletingBehaviour::Error)
        } else if text_eq_ignore_ascii_case(s, "skip") {
            Ok(DestEntryNeedsDeletingBehaviour::Skip)
        } else if text_eq_ignore_ascii_case(s, "delete") {
            Ok(DestEntryNeedsDeletingBehaviour::Delete)
        } else {
            Err(invalid_variant_error(s))
        }
    }
}

impl DestRootNeedsDeletingBehaviour {
    /// Parses a behaviour from its name, ignoring ASCII case.
    pub fn from_str(s: &str) -> (r: Result<DestRootNeedsDeletingBehaviour, String>)
        ensures
            result_is(r, spec_parse_root_delete(s@)),
    {
        if text_eq_ignore_ascii_case(s, "prompt") {
            Ok(DestRootNeedsDeletingBehaviour::Prompt)
        } else if text_eq_ignore_ascii_case(s, "error") {
            Ok(DestRootNeedsDeletingBehaviour::Error)
        } else if text_eq_ignore_ascii_case(s, "skip") {
            Ok(DestRootNeedsDeletingBehaviour::Skip)
        } else if text_eq_ignore_ascii_case(s, "delete") {
            Ok(DestRootNeedsDeletingBehaviour::Delete)
        } else {
            Err(invalid_variant_error(s))
        }
    }
}

impl AllDestructiveBehaviour {
    /// Parses a behaviour from its name, ignoring ASCII case.
    pub fn from_str(s: &str) -> (r: Result<AllDestructiveBehaviour, String>)
        ensures
            result_is(r, spec_parse_all_destructive(s@)),
    {
        if text_eq_ignore_ascii_case(s, "prompt") {
            Ok(AllDestructiveBehaviour::Prompt)
        } else if text_eq_ignore_ascii_case(s, "error") {
            Ok(AllDestructiveBehaviour::Error)
        } else if text_eq_ignore_ascii_case(s, "skip") {
            Ok(AllDestructiveBehaviour::Skip)
        } else if text_eq_ignore_ascii_case(s, "proceed") {
            Ok(AllDestructiveBehaviour::Proceed)
        } else {
            Err(invalid_variant_error(s))
        }
    }

    /// The behaviour for a destination file that is newer or older than the source file.
    pub fn file_update(self) -> (r: DestFileUpdateBehaviour)
        ensures
            r == match self {
                AllDestructiveBehaviour::Prompt => DestFileUpdateBehaviour::Prompt,
                AllDestructiveBehaviour::Error => DestFileUpdateBehaviour::Error,
                AllDestructiveBehaviour::Skip => DestFileUpdateBehaviour::Skip,
                AllDestructiveBehaviour::Proceed => DestFileUpdateBehaviour::Overwrite,
            },
    {
        match self {
            AllDestructiveBehaviour::Prompt => DestFileUpdateBehaviour::Prompt,
            AllDestructiveBehaviour::Error => DestFileUpdateBehaviour::Error,
            AllDestructiveBehaviour::Skip => DestFileUpdateBehaviour::Skip,
            AllDestructiveBehaviour::Proceed => DestFileUpdateBehaviour::Overwrite,
        }
    }

    /// The behaviour for a destination entry that needs deleting.
    pub fn entry_delete(self) -> (r: DestEntryNeedsDeletingBehaviour)
        ensures
            r == match self {
                AllDestructiveBehaviour::Prompt => DestEntryNeedsDeletingBehaviour::Prompt,
                AllDestructiveBehaviour::Error => DestEntryNeedsDeletingBehaviour::Error,
                AllDestructiveBehaviour::Skip => DestEntryNeedsDeletingBehaviour::Skip,
                AllDestructiveBehaviour::Proceed => DestEntryNeedsDeletingBehaviour::Delete,
            },
    {
        match self {
            AllDestructiveBehaviour::Prompt => DestEntryNeedsDeletingBehaviour::Prompt,
            AllDestructiveBehaviour::Error => DestEntryNeedsDeletingBehaviour::Error,
            AllDestructiveBehaviour::Skip => DestEntryNeedsDeletingBehaviour::Skip,
            AllDestructiveBehaviour::Proceed => DestEntryNeedsDeletingBehaviour::Delete,
        }
    }

    /// The behaviour for a destination root that needs deleting.
    pub fn root_delete(self) -> (r: DestRootNeedsDeletingBehaviour)
        ensures
            r == match self {
                AllDestructiveBehaviour::Prompt => DestRootNeedsDeletingBehaviour::Prompt,
                AllDestructiveBehaviour::Error => DestRootNeedsDeletingBehaviour::Error,
                AllDestructiveBehaviour::Skip => DestRootNeedsDeletingBehaviour::Skip,
                AllDestructiveBehaviour::Proceed => DestRootNeedsDeletingBehaviour::Delete,
            },
    {
        match self {
            AllDestructiveBehaviour::Prompt => DestRootNeedsDeletingBehaviour::Prompt,
            AllDestructiveBehaviour::Error => DestRootNeedsDeletingBehaviour::Error,
            AllDestructiveBehaviour::Skip => DestRootNeedsDeletingBehaviour::Skip,
            AllDestructiveBehaviour::Proceed => DestRootNeedsDeletingBehaviour::Delete,
        }
    }
}

/// One pair of paths to sync, with the filters and behaviours to use.
#[derive(Debug, PartialEq, Eq)]
pub struct SyncSpec {
    pub src: String,
    pub dest: String,
    pub filters: Vec<String>,
    pub dest_file_newer_behaviour: DestFileUpdateBehaviour,
    pub dest_file_older_behaviour: DestFileUpdateBehaviour,
    pub dest_entry_needs_deleting_behaviour: DestEntryNeedsDeletingBehaviour,
    pub dest_root_needs_deleting_behaviour: DestRootNeedsDeletingBehaviour,
}

impl Default for SyncSpec {
    /// Empty paths, no filters, and the default behaviours: prompt for a newer destination file,
    /// overwrite an older one, delete entries, and prompt before deleting the destination root.
    fn default() -> (r: SyncSpec)
        ensures
            r.src@.len() == 0,
            r.dest@.len() == 0,
            r.filters@.len() == 0,
            r.dest_file_newer_behaviour == DestFileUpdateBehaviour::Prompt,
            r.dest_file_older_behaviour == DestFileUpdateBehaviour::Overwrite,
            r.dest_entry_needs_deleting_behaviour == DestEntryNeedsDeletingBehaviour::Delete,
            r.dest_root_needs_deleting_behaviour == DestRootNeedsDeletingBehaviour::Prompt,
    {
        SyncSpec {
            src: String::new(),
            dest: String::new(),
            filters: Vec::new(),
            dest_file_newer_behaviour: DestFileUpdateBehaviour::Prompt,
            dest_file_older_behaviour: DestFileUpdateBehaviour::Overwrite,
            dest_entry_needs_deleting_behaviour: DestEntryNeedsDeletingBehaviour::Delete,
            dest_root_needs_deleting_behaviour: DestRootNeedsDeletingBehaviour::Prompt,
        }
    }
}


/// A YAML value as read from a spec file, with the text that describes it in messages.
pub struct YamlValue {
    pub node: YamlNode,
    /// How the value is shown in error messages.
    pub debug: String,
}

/// The kinds of YAML value that a spec file uses.
pub enum YamlNode {
    String(String),
    Array(Vec<YamlValue>),
    /// The entries of a dictionary, in order.
    Hash(Vec<(YamlValue, YamlValue)>),
    /// Any other value (a number, a boolean, null, ...).
    Other,
}

/// The documents of a YAML text, as `yaml_rust::YamlLoader::load_from_str` reads them, or its
/// error message.
pub uninterp spec fn yaml_documents(contents: Seq<char>) -> Result<Seq<YamlValue>, Seq<char>>;

/// Reads YAML with `yaml_rust::YamlLoader::load_from_str`, converting each value to a
/// `YamlValue` (its `Debug` text kept for messages). Trusted: the result is the loader's, as named
/// by `yaml_documents`.
#[verifier::external_body]
fn load_yaml(contents: &str) -> (r: Result<Vec<YamlValue>, String>)
    ensures
        match yaml_documents(contents@) {
            Ok(docs) => r matches Ok(v) && v@ == docs,
            Err(e) => r matches Err(m) && m@ == e,
        },
{
    match yaml_rust::YamlLoader::load_from_str(contents) {
        Ok(docs) => Ok(docs.iter().map(yaml_value).collect()),
        Err(e) => Err(e.to_string()),
    }
}

/// A value read by `yaml_rust`, opaque here.
#[verifier::external_type_specification]
#[verifier::external_body]
pub struct ExYaml(yaml_rust::Yaml);

/// Converts a `yaml_rust::Yaml`, variant for variant.
#[verifier::external_body]
fn yaml_value(y: &yaml_rust::Yaml) -> YamlValue {
    let node = match y {
        yaml_rust::Yaml::String(s) => YamlNode::String(s.clone()),
        yaml_rust::Yaml::Array(a) => YamlNode::Array(a.iter().map(yaml_value).collect()),
        yaml_rust::Yaml::Hash(h) => YamlNode::Hash(h.iter().map(|(k, v)| (yaml_value(k), yaml_value(v))).collect()),
        _ => YamlNode::Other,
    };
    YamlValue { node, debug: format!("{:?}", y) }
}


/// What a `SyncSpec` holds, as plain values.
#[verifier::ext_equal]
pub struct SyncSpecView {
    pub src: Seq<char>,
    pub dest: Seq<char>,
    pub filters: Seq<Seq<char>>,
    pub dest_file_newer_behaviour: DestFileUpdateBehaviour,
    pub dest_file_older_behaviour: DestFileUpdateBehaviour,
    pub dest_entry_needs_deleting_behaviour: DestEntryNeedsDeletingBehaviour,
    pub dest_root_needs_deleting_behaviour: DestRootNeedsDeletingBehaviour,
}

pub open spec fn strings_of(v: Seq<String>) -> Seq<Seq<char>> {
    v.map_values(|s: String| s@)
}

impl SyncSpec {
    pub open spec fn model(&self) -> SyncSpecView {
        SyncSpecView {
            src: self.src@,
            dest: self.dest@,
            filters: strings_of(self.filters@),
            dest_file_newer_behaviour: self.dest_file_newer_behaviour,
            dest_file_older_behaviour: self.dest_file_older_behaviour,
            dest_entry_needs_deleting_behaviour: self.dest_entry_needs_deleting_behaviour,
            dest_root_needs_deleting_behaviour: self.dest_root_needs_deleting_behaviour,
        }
    }
}

/// The defaults of a sync: see `SyncSpec::default`.
pub open spec fn default_sync_spec() -> SyncSpecView {
    SyncSpecView {
        src: Seq::empty(),
        dest: Seq::empty(),
        filters: Seq::empty(),
        dest_file_newer_behaviour: DestFileUpdateBehaviour::Prompt,
        dest_file_older_behaviour: DestFileUpdateBehaviour::Overwrite,
        dest_entry_needs_deleting_behaviour: DestEntryNeedsDeletingBehaviour::Delete,
        dest_root_needs_deleting_behaviour: DestRootNeedsDeletingBehaviour::Prompt,
    }
}

/// Reads a string value, naming the key in the error.
pub open spec fn spec_parse_string(y: YamlValue, key_name: Seq<char>) -> Result<Seq<char>, Seq<char>> {
    match y.node {
        YamlNode::String(x) => Ok(x@),
        _ => Err("Unexpected value for '"@ + key_name + "'. Expected a string, but got "@ + y.debug@),
    }
}

/// Whether a text result agrees with the specified one, taking strings by their view.
pub open spec fn text_result_is(r: Result<String, String>, expected: Result<Seq<char>, Seq<char>>) -> bool {
    match (r, expected) {
        (Ok(a), Ok(b)) => a@ == b,
        (Err(a), Err(b)) => a@ == b,
        _ => false,
    }
}

/// Reads a string value, naming the key in the error.
pub fn parse_string(yaml: &YamlValue, key_name: &str) -> (r: Result<String, String>)
    ensures
        text_result_is(r, spec_parse_string(*yaml, key_name@)),
{
    match &yaml.node {
        YamlNode::String(x) => Ok(x.clone()),
        _ => {
            proof { reveal_with_fuel(crate::text::concat_all, 5); }
            Err(crate::text::concat(&["Unexpected value for '", key_name, "'. Expected a string, but got ", yaml.debug.as_str()]))
        },
    }
}

/// Appends the strings of a filters array, from element `i` on.
pub open spec fn filters_from(a: Seq<YamlValue>, i: int, acc: Seq<Seq<char>>) -> Result<Seq<Seq<char>>, Seq<char>>
    decreases a.len() - i,
{
    if i < 0 || i >= a.len() {
        Ok(acc)
    } else {
        match a[i].node {
            YamlNode::String(x) => filters_from(a, i + 1, acc.push(x@)),
            _ => Err("Unexpected value in 'filters' array. Expected string, but got "@ + a[i].debug@),
        }
    }
}

/// Applies one entry of a sync's dictionary.
pub open spec fn apply_sync_entry(k: YamlValue, v: YamlValue, acc: SyncSpecView) -> Result<SyncSpecView, Seq<char>> {
    let unexpected = Err("Unexpected key in 'syncs' entry: "@ + k.debug@);
    match k.node {
        YamlNode::String(x) => if x@ == "src"@ {
            match spec_parse_string(v, "src"@) { Ok(s) => Ok(SyncSpecView { src: s, ..acc }), Err(e) => Err(e) }
        } else if x@ == "dest"@ {
            match spec_parse_string(v, "dest"@) { Ok(s) => Ok(SyncSpecView { dest: s, ..acc }), Err(e) => Err(e) }
        } else if x@ == "filters"@ {
            match v.node {
                YamlNode::Array(a) => match filters_from(a@, 0, acc.filters) {
                    Ok(f) => Ok(SyncSpecView { filters: f, ..acc }),
                    Err(e) => Err(e),
                },
                _ => Err("Unexpected value for 'filters'. Expected an array, but got "@ + v.debug@),
            }
        } else if x@ == "dest_file_newer_behaviour"@ {
            match spec_parse_string(v, "dest"@) {
                Err(e) => Err(e),
                Ok(t) => match spec_parse_file_update(t) { Ok(b) => Ok(SyncSpecView { dest_file_newer_behaviour: b, ..acc }), Err(e) => Err(e) },
            }
        } else if x@ == "dest_file_older_behaviour"@ {
            match spec_parse_string(v, "dest"@) {
                Err(e) => Err(e),
                Ok(t) => match spec_parse_file_update(t) { Ok(b) => Ok(SyncSpecView { dest_file_older_behaviour: b, ..acc }), Err(e) => Err(e) },
            }
        } else if x@ == "dest_entry_needs_deleting_behaviour"@ {
            match spec_parse_string(v, "dest"@) {
                Err(e) => Err(e),
                Ok(t) => match spec_parse_entry_delete(t) { Ok(b) => Ok(SyncSpecView { dest_entry_needs_deleting_behaviour: b, ..acc }), Err(e) => Err(e) },
            }
        } else if x@ == "dest_root_needs_deleting_behaviour"@ {
            match spec_parse_string(v, "dest"@) {
                Err(e) => Err(e),
                Ok(t) => match spec_parse_root_delete(t) { Ok(b) => Ok(SyncSpecView { dest_root_needs_deleting_behaviour: b, ..acc }), Err(e) => Err(e) },
            }
        } else {
            unexpected
        },
        _ => unexpected,
    }
}

/// Applies the entries of a sync's dictionary from entry `i` on.
pub open spec fn sync_entries_from(h: Seq<(YamlValue, YamlValue)>, i: int, acc: SyncSpecView) -> Result<SyncSpecView, Seq<char>>
    decreases h.len() - i,
{
    if i < 0 || i >= h.len() {
        Ok(acc)
    } else {
        match apply_sync_entry(h[i].0, h[i].1, acc) {
            Ok(a) => sync_entries_from(h, i + 1, a),
            Err(e) => Err(e),
        }
    }
}

/// Reads one entry of the `syncs` list of a spec file: a dictionary whose `src` and `dest` must be
/// given and non-empty, the rest taking their defaults.
pub open spec fn spec_parse_sync_spec(y: YamlValue) -> Result<SyncSpecView, Seq<char>> {
    match y.node {
        YamlNode::Hash(h) => match sync_entries_from(h@, 0, default_sync_spec()) {
            Err(e) => Err(e),
            Ok(r) => if r.src.len() == 0 {
                Err("src must be provided and non-empty"@)
            } else if r.dest.len() == 0 {
                Err("dest must be provided and non-empty"@)
            } else {
                Ok(r)
            },
        },
        _ => Err("Sync value must be a dictionary"@),
    }
}

fn key_is(k: &YamlValue, name: &str) -> (r: bool)
    ensures
        r == (k.node matches YamlNode::String(x) && x@ == name@),
{
    match &k.node {
        YamlNode::String(x) => crate::boss_launch::text_equal(x.as_str(), name),
        _ => false,
    }
}

fn append_filters(a: &Vec<YamlValue>, filters: &mut Vec<String>) -> (r: Result<(), String>)
    ensures
        match filters_from(a@, 0, strings_of(old(filters)@)) {
            Ok(f) => r is Ok && strings_of(final(filters)@) == f,
            Err(e) => r matches Err(m) && m@ == e,
        },
{
    let mut i: usize = 0;
    while i < a.len()
        invariant
            i <= a@.len(),
            filters_from(a@, 0, strings_of(old(filters)@)) == filters_from(a@, i as int, strings_of(filters@)),
        decreases a.len() - i,
    {
        match &a[i].node {
            YamlNode::String(x) => {
                let ghost before = filters@;
                filters.push(x.clone());
                assert(strings_of(filters@) =~= strings_of(before).push(x@));
            },
            _ => {
                let mut m = String::from_str("Unexpected value in 'filters' array. Expected string, but got ");
                m.append(a[i].debug.as_str());
                return Err(m);
            },
        }
        i = i + 1;
    }
    Ok(())
}

fn sync_entry(k: &YamlValue, v: &YamlValue, acc: &mut SyncSpec) -> (r: Result<(), String>)
    ensures
        match apply_sync_entry(*k, *v, old(acc).model()) {
            Ok(m) => r is Ok && final(acc).model() == m,
            Err(e) => r matches Err(t) && t@ == e,
        },
{
    let unexpected = {
        let mut m = String::from_str("Unexpected key in 'syncs' entry: ");
        m.append(k.debug.as_str());
        m
    };
    if key_is(k, "src") {
        acc.src = match parse_string(v, "src") { Ok(t) => t, Err(e) => return Err(e) };
    } else if key_is(k, "dest") {
        acc.dest = match parse_string(v, "dest") { Ok(t) => t, Err(e) => return Err(e) };
    } else if key_is(k, "filters") {
        match &v.node {
            YamlNode::Array(a) => match append_filters(a, &mut acc.filters) { Ok(()) => {}, Err(e) => return Err(e) },
            _ => {
                let mut m = String::from_str("Unexpected value for 'filters'. Expected an array, but got ");
                m.append(v.debug.as_str());
                return Err(m);
            },
        }
    } else if key_is(k, "dest_file_newer_behaviour") {
        let t = match parse_string(v, "dest") { Ok(t) => t, Err(e) => return Err(e) };
        acc.dest_file_newer_behaviour = match DestFileUpdateBehaviour::from_str(t.as_str()) { Ok(b) => b, Err(e) => return Err(e) };
    } else if key_is(k, "dest_file_older_behaviour") {
        let t = match parse_string(v, "dest") { Ok(t) => t, Err(e) => return Err(e) };
        acc.dest_file_older_behaviour = match DestFileUpdateBehaviour::from_str(t.as_str()) { Ok(b) => b, Err(e) => return Err(e) };
    } else if key_is(k, "dest_entry_needs_deleting_behaviour") {
        let t = match parse_string(v, "dest") { Ok(t) => t, Err(e) => return Err(e) };
        acc.dest_entry_needs_deleting_behaviour = match DestEntryNeedsDeletingBehaviour::from_str(t.as_str()) { Ok(b) => b, Err(e) => return Err(e) };
    } else if key_is(k, "dest_root_needs_deleting_behaviour") {
        let t = match parse_string(v, "dest") { Ok(t) => t, Err(e) => return Err(e) };
        acc.dest_root_needs_deleting_behaviour = match DestRootNeedsDeletingBehaviour::from_str(t.as_str()) { Ok(b) => b, Err(e) => return Err(e) };
    } else {
        return Err(unexpected);
    }
    Ok(())
}

/// Reads one entry of the `syncs` list of a spec file, as `spec_parse_sync_spec` says.
pub fn parse_sync_spec(yaml: &YamlValue) -> (r: Result<SyncSpec, String>)
    ensures
        match spec_parse_sync_spec(*yaml) {
            Ok(m) => r matches Ok(s) && s.model() == m,
            Err(e) => r matches Err(t) && t@ == e,
        },
{
    let h = match &yaml.node {
        YamlNode::Hash(h) => h,
        _ => return Err(String::from_str("Sync value must be a dictionary")),
    };
    let mut result = SyncSpec::default();
    assert(result.model() =~= default_sync_spec());
    let mut i: usize = 0;
    while i < h.len()
        invariant
            i <= h@.len(),
            sync_entries_from(h@, 0, default_sync_spec()) == sync_entries_from(h@, i as int, result.model()),
            (yaml.node matches YamlNode::Hash(hh) && hh@ == h@),
        decreases h.len() - i,
    {
        let (k, v) = &h[i];
        let ghost before = result.model();
        assert(h@[i as int] == (*k, *v));
        match sync_entry(k, v, &mut result) {
            Ok(()) => {},
            Err(e) => {
                assert(sync_entries_from(h@, i as int, before) == Err::<SyncSpecView, Seq<char>>(e@));
                return Err(e);
            },
        }
        i = i + 1;
    }
    if result.src.unicode_len() == 0 {
        return Err(String::from_str("src must be provided and non-empty"));
    }
    if result.dest.unicode_len() == 0 {
        return Err(String::from_str("dest must be provided and non-empty"));
    }
    Ok(result)
}


/// What to sync: the hosts and users of the two sides (empty for local), and the pairs of paths.
#[derive(Debug, Default, PartialEq, Eq)]
pub struct Spec {
    pub src_hostname: String,
    pub src_username: String,
    pub dest_hostname: String,
    pub dest_username: String,
    pub syncs: Vec<SyncSpec>,
}

/// What a `Spec` holds, as plain values.
#[verifier::ext_equal]
pub struct SpecView {
    pub src_hostname: Seq<char>,
    pub src_username: Seq<char>,
    pub dest_hostname: Seq<char>,
    pub dest_username: Seq<char>,
    pub syncs: Seq<SyncSpecView>,
}

impl Spec {
    pub open spec fn model(&self) -> SpecView {
        SpecView {
            src_hostname: self.src_hostname@,
            src_username: self.src_username@,
            dest_hostname: self.dest_hostname@,
            dest_username: self.dest_username@,
            syncs: self.syncs@.map_values(|s: SyncSpec| s.model()),
        }
    }

    /// No hosts, users or syncs.
    pub fn empty() -> (r: Spec)
        ensures
            r.model() == empty_spec(),
    {
        let r = Spec { src_hostname: String::new(), src_username: String::new(), dest_hostname: String::new(),
            dest_username: String::new(), syncs: Vec::new() };
        assert(r.model() =~= empty_spec());
        r
    }
}

pub open spec fn empty_spec() -> SpecView {
    SpecView { src_hostname: Seq::empty(), src_username: Seq::empty(), dest_hostname: Seq::empty(),
        dest_username: Seq::empty(), syncs: Seq::empty() }
}

/// Appends the syncs of the `syncs` list, from element `i` on.
pub open spec fn syncs_from(a: Seq<YamlValue>, i: int, acc: Seq<SyncSpecView>) -> Result<Seq<SyncSpecView>, Seq<char>>
    decreases a.len() - i,
{
    if i < 0 || i >= a.len() {
        Ok(acc)
    } else {
        match spec_parse_sync_spec(a[i]) {
            Ok(s) => syncs_from(a, i + 1, acc.push(s)),
            Err(e) => Err(e),
        }
    }
}

/// Applies one entry of the root dictionary of a spec file.
pub open spec fn apply_root_entry(k: YamlValue, v: YamlValue, acc: SpecView) -> Result<SpecView, Seq<char>> {
    let unexpected = Err("Unexpected key in root dictionary: "@ + k.debug@);
    match k.node {
        YamlNode::String(x) => if x@ == "src_hostname"@ {
            match spec_parse_string(v, "src_hostname"@) { Ok(s) => Ok(SpecView { src_hostname: s, ..acc }), Err(e) => Err(e) }
        } else if x@ == "src_username"@ {
            match spec_parse_string(v, "src_username"@) { Ok(s) => Ok(SpecView { src_username: s, ..acc }), Err(e) => Err(e) }
        } else if x@ == "dest_hostname"@ {
            match spec_parse_string(v, "dest_hostname"@) { Ok(s) => Ok(SpecView { dest_hostname: s, ..acc }), Err(e) => Err(e) }
        } else if x@ == "dest_username"@ {
            match spec_parse_string(v, "dest_username"@) { Ok(s) => Ok(SpecView { dest_username: s, ..acc }), Err(e) => Err(e) }
        } else if x@ == "syncs"@ {
            match v.node {
                YamlNode::Array(a) => match syncs_from(a@, 0, acc.syncs) {
                    Ok(ss) => Ok(SpecView { syncs: ss, ..acc }),
                    Err(e) => Err(e),
                },
                _ => Err("Unexpected value for 'syncs'. Expected an array, but got "@ + v.debug@),
            }
        } else {
            unexpected
        },
        _ => unexpected,
    }
}

/// Applies the entries of the root dictionary from entry `i` on.
pub open spec fn root_entries_from(h: Seq<(YamlValue, YamlValue)>, i: int, acc: SpecView) -> Result<SpecView, Seq<char>>
    decreases h.len() - i,
{
    if i < 0 || i >= h.len() {
        Ok(acc)
    } else {
        match apply_root_entry(h[i].0, h[i].1, acc) {
            Ok(a) => root_entries_from(h, i + 1, a),
            Err(e) => Err(e),
        }
    }
}

/// Reads a spec file: YAML whose first document (later ones are ignored) is a dictionary.
pub open spec fn spec_parse_spec(contents: Seq<char>) -> Result<SpecView, Seq<char>> {
    match yaml_documents(contents) {
        Err(e) => Err(e),
        Ok(docs) => spec_spec_from_documents(docs),
    }
}

/// The spec that the YAML documents of a spec file give: the first document must be a dictionary,
/// whose entries give the hosts, users and syncs.
pub open spec fn spec_spec_from_documents(docs: Seq<YamlValue>) -> Result<SpecView, Seq<char>> {
    if docs.len() < 1 {
        Err("Expected at least one YAML document"@)
    } else {
        match docs[0].node {
            YamlNode::Hash(h) => root_entries_from(h@, 0, empty_spec()),
            _ => Err("Document root must be a dictionary"@),
        }
    }
}

fn append_syncs(a: &Vec<YamlValue>, syncs: &mut Vec<SyncSpec>) -> (r: Result<(), String>)
    ensures
        match syncs_from(a@, 0, old(syncs)@.map_values(|s: SyncSpec| s.model())) {
            Ok(ss) => r is Ok && final(syncs)@.map_values(|s: SyncSpec| s.model()) == ss,
            Err(e) => r matches Err(m) && m@ == e,
        },
{
    let mut i: usize = 0;
    while i < a.len()
        invariant
            i <= a@.len(),
            syncs_from(a@, 0, old(syncs)@.map_values(|s: SyncSpec| s.model()))
                == syncs_from(a@, i as int, syncs@.map_values(|s: SyncSpec| s.model())),
        decreases a.len() - i,
    {
        match parse_sync_spec(&a[i]) {
            Ok(s) => {
                let ghost before = syncs@;
                let ghost m = s.model();
                syncs.push(s);
                assert(syncs@.map_values(|s: SyncSpec| s.model()) =~= before.map_values(|s: SyncSpec| s.model()).push(m));
            },
            Err(e) => return Err(e),
        }
        i = i + 1;
    }
    Ok(())
}

fn root_entry(k: &YamlValue, v: &YamlValue, acc: &mut Spec) -> (r: Result<(), String>)
    ensures
        match apply_root_entry(*k, *v, old(acc).model()) {
            Ok(m) => r is Ok && final(acc).model() == m,
            Err(e) => r matches Err(t) && t@ == e,
        },
{
    if key_is(k, "src_hostname") {
        acc.src_hostname = match parse_string(v, "src_hostname") { Ok(t) => t, Err(e) => return Err(e) };
    } else if key_is(k, "src_username") {
        acc.src_username = match parse_string(v, "src_username") { Ok(t) => t, Err(e) => return Err(e) };
    } else if key_is(k, "dest_hostname") {
        acc.dest_hostname = match parse_string(v, "dest_hostname") { Ok(t) => t, Err(e) => return Err(e) };
    } else if key_is(k, "dest_username") {
        acc.dest_username = match parse_string(v, "dest_username") { Ok(t) => t, Err(e) => return Err(e) };
    } else if key_is(k, "syncs") {
        match &v.node {
            YamlNode::Array(a) => match append_syncs(a, &mut acc.syncs) { Ok(()) => {}, Err(e) => return Err(e) },
            _ => {
                let mut m = String::from_str("Unexpected value for 'syncs'. Expected an array, but got ");
                m.append(v.debug.as_str());
                return Err(m);
            },
        }
    } else {
        let mut m = String::from_str("Unexpected key in root dictionary: ");
        m.append(k.debug.as_str());
        return Err(m);
    }
    Ok(())
}

/// Reads the contents of a spec file, as `spec_parse_spec` says.
pub fn parse_spec_contents(contents: &str) -> (r: Result<Spec, String>)
    ensures
        match spec_parse_spec(contents@) {
            Ok(m) => r matches Ok(s) && s.model() == m,
            Err(e) => r matches Err(t) && t@ == e,
        },
{
    let docs = match load_yaml(contents) {
        Ok(d) => d,
        Err(e) => return Err(e),
    };
    spec_from_documents(&docs)
}

/// The spec that the YAML documents of a spec file give, as `spec_spec_from_documents` says.
pub fn spec_from_documents(docs: &Vec<YamlValue>) -> (r: Result<Spec, String>)
    ensures
        match spec_spec_from_documents(docs@) {
            Ok(m) => r matches Ok(s) && s.model() == m,
            Err(e) => r matches Err(t) && t@ == e,
        },
{
    if docs.len() < 1 {
        return Err(String::from_str("Expected at least one YAML document"));
    }
    let h = match &docs[0].node {
        YamlNode::Hash(h) => h,
        _ => return Err(String::from_str("Document root must be a dictionary")),
    };
    let mut result = Spec::empty();
    let mut i: usize = 0;
    while i < h.len()
        invariant
            i <= h@.len(),
            root_entries_from(h@, 0, empty_spec()) == root_entries_from(h@, i as int, result.model()),
            (docs@[0].node matches YamlNode::Hash(hh) && hh@ == h@),
            docs@.len() >= 1,
        decreases h.len() - i,
    {
        let (k, v) = &h[i];
        let ghost before = result.model();
        assert(h@[i as int] == (*k, *v));
        match root_entry(k, v, &mut result) {
            Ok(()) => {},
            Err(e) => {
                assert(root_entries_from(h@, i as int, before) == Err::<SpecView, Seq<char>>(e@));
                return Err(e);
            },
        }
        i = i + 1;
    }
    Ok(result)
}

/// The command-line options that decide what is synced and how.
pub struct SpecArgs {
    pub src: Option<crate::remote_desc::RemotePathDesc>,
    pub dest: Option<crate::remote_desc::RemotePathDesc>,
    /// The path of a spec file, if one was given.
    pub spec: Option<String>,
    pub filters: Vec<String>,
    pub dest_file_newer: Option<DestFileUpdateBehaviour>,
    pub dest_file_older: Option<DestFileUpdateBehaviour>,
    pub dest_entry_needs_deleting: Option<DestEntryNeedsDeletingBehaviour>,
    pub dest_root_needs_deleting: Option<DestRootNeedsDeletingBehaviour>,
    pub all_destructive_behaviour: Option<AllDestructiveBehaviour>,
}

/// A behaviour given on the command line, or else the one implied by `--all-destructive-behaviour`.
pub open spec fn or_implied<T>(given: Option<T>, implied: Option<T>) -> Option<T> {
    match given {
        Some(b) => Some(b),
        None => implied,
    }
}

/// The four behaviours that the command line sets, each given directly or implied by the
/// setting for all destructive actions.
pub open spec fn given_behaviours(args: SpecArgs) -> (Option<DestFileUpdateBehaviour>, Option<DestFileUpdateBehaviour>,
    Option<DestEntryNeedsDeletingBehaviour>, Option<DestRootNeedsDeletingBehaviour>) {
    match args.all_destructive_behaviour {
        None => (args.dest_file_newer, args.dest_file_older, args.dest_entry_needs_deleting, args.dest_root_needs_deleting),
        Some(a) => {
            let update = match a {
                AllDestructiveBehaviour::Prompt => DestFileUpdateBehaviour::Prompt,
                AllDestructiveBehaviour::Error => DestFileUpdateBehaviour::Error,
                AllDestructiveBehaviour::Skip => DestFileUpdateBehaviour::Skip,
                AllDestructiveBehaviour::Proceed => DestFileUpdateBehaviour::Overwrite,
            };
            let entry = match a {
                AllDestructiveBehaviour::Prompt => DestEntryNeedsDeletingBehaviour::Prompt,
                AllDestructiveBehaviour::Error => DestEntryNeedsDeletingBehaviour::Error,
                AllDestructiveBehaviour::Skip => DestEntryNeedsDeletingBehaviour::Skip,
                AllDestructiveBehaviour::Proceed => DestEntryNeedsDeletingBehaviour::Delete,
            };
            let root = match a {
                AllDestructiveBehaviour::Prompt => DestRootNeedsDeletingBehaviour::Prompt,
                AllDestructiveBehaviour::Error => DestRootNeedsDeletingBehaviour::Error,
                AllDestructiveBehaviour::Skip => DestRootNeedsDeletingBehaviour::Skip,
                AllDestructiveBehaviour::Proceed => DestRootNeedsDeletingBehaviour::Delete,
            };
            (or_implied(args.dest_file_newer, Some(update)), or_implied(args.dest_file_older, Some(update)),
                or_implied(args.dest_entry_needs_deleting, Some(entry)), or_implied(args.dest_root_needs_deleting, Some(root)))
        },
    }
}

/// A sync with the command-line settings applied: the filters replace the sync's own if any are
/// given, and each behaviour given replaces the sync's.
pub open spec fn overridden(s: SyncSpecView, args: SpecArgs) -> SyncSpecView {
    let b = given_behaviours(args);
    SyncSpecView {
        filters: if args.filters@.len() > 0 { strings_of(args.filters@) } else { s.filters },
        dest_file_newer_behaviour: match b.0 { Some(x) => x, None => s.dest_file_newer_behaviour },
        dest_file_older_behaviour: match b.1 { Some(x) => x, None => s.dest_file_older_behaviour },
        dest_entry_needs_deleting_behaviour: match b.2 { Some(x) => x, None => s.dest_entry_needs_deleting_behaviour },
        dest_root_needs_deleting_behaviour: match b.3 { Some(x) => x, None => s.dest_root_needs_deleting_behaviour },
        ..s
    }
}

/// What the command line and the spec file (if any) ask to sync: the spec file's contents, or a
/// single sync of the source and destination given on the command line; then the command-line
/// settings applied to every sync.
pub open spec fn spec_resolve_spec(args: SpecArgs, spec_file: Option<Result<Seq<char>, Seq<char>>>) -> Result<SpecView, Seq<char>> {
    let base: Result<SpecView, Seq<char>> = match args.spec {
        Some(path) => {
            let parsed = match spec_file {
                Some(Ok(contents)) => spec_parse_spec(contents),
                Some(Err(e)) => Err(e),
                None => Err(Seq::empty()),
            };
            match parsed {
                Ok(s) => Ok(s),
                Err(e) => Err("Failed to parse spec file at '"@ + path@ + "': "@ + e),
            }
        },
        None => {
            let src = args.src->0;
            let dest = args.dest->0;
            Ok(SpecView {
                src_hostname: src.hostname@,
                src_username: src.username@,
                dest_hostname: dest.hostname@,
                dest_username: dest.username@,
                syncs: seq![SyncSpecView { src: src.path@, dest: dest.path@, ..default_sync_spec() }],
            })
        },
    };
    match base {
        Err(e) => Err(e),
        Ok(s) => Ok(SpecView { syncs: s.syncs.map_values(|x: SyncSpecView| overridden(x, args)), ..s }),
    }
}

/// Without a spec file, each side of the sync is what that side's own command-line argument
/// names: the source's host, user and path from the source argument, the destination's from the
/// destination argument; and there is one sync, between the two paths.
pub proof fn lemma_command_line_sides(args: SpecArgs, spec_file: Option<Result<Seq<char>, Seq<char>>>)
    requires
        args.spec is None,
    ensures
        spec_resolve_spec(args, spec_file) matches Ok(m) && {
            &&& m.src_hostname == args.src->0.hostname@
            &&& m.src_username == args.src->0.username@
            &&& m.dest_hostname == args.dest->0.hostname@
            &&& m.dest_username == args.dest->0.username@
            &&& m.syncs.len() == 1
            &&& m.syncs[0].src == args.src->0.path@
            &&& m.syncs[0].dest == args.dest->0.path@
        },
{
}

fn resolved_behaviours(args: &SpecArgs) -> (r: (Option<DestFileUpdateBehaviour>, Option<DestFileUpdateBehaviour>,
    Option<DestEntryNeedsDeletingBehaviour>, Option<DestRootNeedsDeletingBehaviour>))
    ensures
        r == given_behaviours(*args),
{
    match args.all_destructive_behaviour {
        None => (args.dest_file_newer, args.dest_file_older, args.dest_entry_needs_deleting, args.dest_root_needs_deleting),
        Some(a) => {
            let update = a.file_update();
            let entry = a.entry_delete();
            let root = a.root_delete();
            (
                match args.dest_file_newer { Some(b) => Some(b), None => Some(update) },
                match args.dest_file_older { Some(b) => Some(b), None => Some(update) },
                match args.dest_entry_needs_deleting { Some(b) => Some(b), None => Some(entry) },
                match args.dest_root_needs_deleting { Some(b) => Some(b), None => Some(root) },
            )
        },
    }
}

fn clone_strings(v: &Vec<String>) -> (r: Vec<String>)
    ensures
        strings_of(r@) == strings_of(v@),
{
    let mut r: Vec<String> = Vec::new();
    let mut i: usize = 0;
    while i < v.len()
        invariant
            i <= v@.len(),
            strings_of(r@) == strings_of(v@.take(i as int)),
        decreases v.len() - i,
    {
        let ghost before = r@;
        r.push(v[i].clone());
        assert(strings_of(r@) =~= strings_of(before).push(v@[i as int]@));
        assert(strings_of(v@.take(i + 1)) =~= strings_of(v@.take(i as int)).push(v@[i as int]@));
        i = i + 1;
    }
    assert(v@.take(v@.len() as int) =~= v@);
    r
}

/// Works out what to sync from the command line and, where `--spec` was given, the spec file's
/// contents (or the error reading it).
pub fn resolve_spec(args: &SpecArgs, spec_file: Option<Result<String, String>>) -> (r: Result<Spec, String>)
    requires
        args.spec is None ==> args.src is Some && args.dest is Some,
    ensures
        match spec_resolve_spec(*args, match spec_file { Some(Ok(c)) => Some(Ok(c@)), Some(Err(e)) => Some(Err(e@)), None => None }) {
            Ok(m) => r matches Ok(s) && s.model() == m,
            Err(e) => r matches Err(t) && t@ == e,
        },
        args.spec is None ==> (r matches Ok(s)
            && s.src_hostname@ == args.src->0.hostname@ && s.src_username@ == args.src->0.username@
            && s.dest_hostname@ == args.dest->0.hostname@ && s.dest_username@ == args.dest->0.username@
            && s.syncs@.len() == 1 && s.syncs@[0].src@ == args.src->0.path@ && s.syncs@[0].dest@ == args.dest->0.path@),
{
    let ghost sfv = match &spec_file { Some(Ok(c)) => Some(Ok(c@)), Some(Err(e)) => Some(Err(e@)), None => None };
    let mut spec = match &args.spec {
        Some(path) => {
            let parsed = match spec_file {
                Some(Ok(contents)) => parse_spec_contents(contents.as_str()),
                Some(Err(e)) => Err(e),
                None => Err(String::new()),
            };
            match parsed {
                Ok(s) => s,
                Err(e) => {
                    let mut m = String::from_str("Failed to parse spec file at '");
                    m.append(path.as_str());
                    m.append("': ");
                    m.append(e.as_str());
                    return Err(m);
                },
            }
        },
        None => {
            let src = args.src.as_ref().unwrap();
            let dest = args.dest.as_ref().unwrap();
            let mut sync = SyncSpec::default();
            sync.src = src.path.clone();
            sync.dest = dest.path.clone();
            assert(strings_of(sync.filters@) =~= Seq::<Seq<char>>::empty());
            assert(sync.model() =~= SyncSpecView { src: src.path@, dest: dest.path@, ..default_sync_spec() });
            let mut syncs = Vec::new();
            syncs.push(sync);
            let s = Spec {
                src_hostname: src.hostname.clone(),
                src_username: src.username.clone(),
                dest_hostname: dest.hostname.clone(),
                dest_username: dest.username.clone(),
                syncs,
            };
            assert(s.model().syncs =~= seq![SyncSpecView { src: src.path@, dest: dest.path@, ..default_sync_spec() }]);
            s
        },
    };
    let b = resolved_behaviours(args);
    let ghost base = spec.model();
    let mut out: Vec<SyncSpec> = Vec::new();
    let mut i: usize = 0;
    while i < spec.syncs.len()
        invariant
            i <= spec.syncs@.len(),
            spec.model() == base,
            b == given_behaviours(*args),
            out@.map_values(|s: SyncSpec| s.model())
                == base.syncs.take(i as int).map_values(|x: SyncSpecView| overridden(x, *args)),
        decreases spec.syncs.len() - i,
    {
        let s = &spec.syncs[i];
        let filters = if args.filters.len() > 0 { clone_strings(&args.filters) } else { clone_strings(&s.filters) };
        let new_sync = SyncSpec {
            src: s.src.clone(),
            dest: s.dest.clone(),
            filters,
            dest_file_newer_behaviour: match b.0 { Some(x) => x, None => s.dest_file_newer_behaviour },
            dest_file_older_behaviour: match b.1 { Some(x) => x, None => s.dest_file_older_behaviour },
            dest_entry_needs_deleting_behaviour: match b.2 { Some(x) => x, None => s.dest_entry_needs_deleting_behaviour },
            dest_root_needs_deleting_behaviour: match b.3 { Some(x) => x, None => s.dest_root_needs_deleting_behaviour },
        };
        let ghost before = out@;
        assert(base.syncs[i as int] == s.model());
        assert(new_sync.model() =~= overridden(s.model(), *args));
        out.push(new_sync);
        assert(out@.map_values(|s: SyncSpec| s.model()) =~= before.map_values(|s: SyncSpec| s.model()).push(
            overridden(s.model(), *args)));
        assert(base.syncs.take(i + 1).map_values(|x: SyncSpecView| overridden(x, *args))
            =~= base.syncs.take(i as int).map_values(|x: SyncSpecView| overridden(x, *args)).push(overridden(s.model(), *args)));
        i = i + 1;
    }
    assert(base.syncs.take(base.syncs.len() as int) =~= base.syncs);
    spec.syncs = out;
    assert(spec.model() =~= SpecView { syncs: base.syncs.map_values(|x: SyncSpecView| overridden(x, *args)), ..base });
    proof {
        if args.spec is None {
            lemma_command_line_sides(*args, sfv);
            assert(spec.model().syncs[0] == spec.syncs@[0].model());
        }
    }
    Ok(spec)
}

} // verus!
