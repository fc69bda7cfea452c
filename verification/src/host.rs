use vstd::prelude::*;
use vstd::string::StringExecFns;

use crate::strutil::contains_sub;
use crate::strutil::contains_sub_exec;
use crate::strutil::lower_of;
use crate::strutil::to_lowercase;

verus! {

/// Mathematical model of one SSH host entry: every string field is seen
/// as its sequence of characters.
#[verifier::ext_equal]
pub struct HostModel {
    pub name: Seq<char>,
    pub hostname: Option<Seq<char>>,
    pub user: Option<Seq<char>>,
    pub port: Option<Seq<char>>,
    pub identity_file: Option<Seq<char>>,
    pub other_options: Seq<(Seq<char>, Seq<char>)>,
    pub folder: Option<Seq<char>>,
    pub display_name: Option<Seq<char>>,
    pub description: Option<Seq<char>>,
    pub visible: bool,
}

/// One named SSH connection profile with optional connection fields and
/// display metadata. Unrecognized configuration directives are kept as
/// ordered key/value pairs.
pub struct SshHost {
    pub name: String,
    pub hostname: Option<String>,
    pub user: Option<String>,
    pub port: Option<String>,
    pub identity_file: Option<String>,
    pub other_options: Vec<(String, String)>,
    pub folder: Option<String>,
    pub display_name: Option<String>,
    pub description: Option<String>,
    pub visible: bool,
}

pub open spec fn opt_view(o: Option<String>) -> Option<Seq<char>> {
    match o {
        Some(s) => Some(s@),
        None => None,
    }
}

impl View for SshHost {
    type V = HostModel;

    open spec fn view(&self) -> HostModel {
        HostModel {
            name: self.name@,
            hostname: opt_view(self.hostname),
            user: opt_view(self.user),
            port: opt_view(self.port),
            identity_file: opt_view(self.identity_file),
            other_options: self.other_options.deep_view(),
            folder: opt_view(self.folder),
            display_name: opt_view(self.display_name),
            description: opt_view(self.description),
            visible: self.visible,
        }
    }
}

impl DeepView for SshHost {
    type V = HostModel;

    open spec fn deep_view(&self) -> HostModel {
        self.view()
    }
}

impl SshHost {
    /// A fresh host with the given name, no connection fields, no
    /// metadata, and visible by default.
    pub fn new(name: String) -> (r: Self)
        ensures
            r@ == (HostModel {
                name: name@,
                hostname: None,
                user: None,
                port: None,
                identity_file: None,
                other_options: Seq::<(Seq<char>, Seq<char>)>::empty(),
                folder: None,
                display_name: None,
                description: None,
                visible: true,
            }),
    {
        let r = SshHost {
            name,
            hostname: None,
            user: None,
            port: None,
            identity_file: None,
            other_options: Vec::new(),
            folder: None,
            display_name: None,
            description: None,
            visible: true,
        };
        assert(r.other_options.deep_view() =~= Seq::<(Seq<char>, Seq<char>)>::empty());
        r
    }

    /// The name shown for this host: the display-name override when one is
    /// set, the host name otherwise.
    pub fn get_display_name(&self) -> (r: String)
        ensures
            r@ == display_key(self@),
    {
        match &self.display_name {
            Some(d) => d.clone(),
            None => self.name.clone(),
        }
    }

    /// Case-insensitive substring match of `query` against the name,
    /// hostname, user, display name, description and folder fields.
    pub fn matches_search(&self, query: &str) -> (r: bool)
        ensures
            r == host_matches(self@, query@),
    {
        let ql = to_lowercase(query);
        if field_matches(&self.name, ql.as_str()) {
            return true;
        }
        if opt_matches_exec(&self.hostname, ql.as_str()) {
            return true;
        }
        if opt_matches_exec(&self.user, ql.as_str()) {
            return true;
        }
        if opt_matches_exec(&self.display_name, ql.as_str()) {
            return true;
        }
        if opt_matches_exec(&self.description, ql.as_str()) {
            return true;
        }
        if opt_matches_exec(&self.folder, ql.as_str()) {
            return true;
        }
        false
    }

    /// The display name followed by a parenthesized connection summary
    /// (`user@host` or its partial forms and the port) and the description.
    pub fn get_full_display_info(&self) -> (r: String)
        ensures
            r@ == full_display_info(self@),
    {
        let display_name = self.get_display_name();
        let mut conn = String::new();
        let mut has_part = false;
        match (&self.user, &self.hostname) {
            (Some(u), Some(h)) => {
                conn.append(u.as_str());
                conn.append("@");
                conn.append(h.as_str());
                has_part = true;
            },
            (Some(u), None) => {
                conn.append("user:");
                conn.append(u.as_str());
                has_part = true;
            },
            (None, Some(h)) => {
                conn.append(h.as_str());
                has_part = true;
            },
            (None, None) => {},
        }
        match &self.port {
            Some(p) => {
                if has_part {
                    conn.append(" ");
                }
                conn.append("port:");
                conn.append(p.as_str());
                has_part = true;
            },
            None => {},
        }
        let mut base = display_name;
        if has_part {
            base.append(" (");
            base.append(conn.as_str());
            base.append(")");
        }
        match &self.description {
            Some(d) => {
                base.append(" # ");
                base.append(d.as_str());
            },
            None => {},
        }
        base
    }
}

/// Effective display name: the override when present, else the host name.
pub open spec fn display_key(h: HostModel) -> Seq<char> {
    match h.display_name {
        Some(d) => d,
        None => h.name,
    }
}

/// The parenthesized connection summary of `full_display_info`, without the
/// parentheses; empty when no connection field is set.
pub open spec fn conn_info(h: HostModel) -> Seq<char> {
    let head = match (h.user, h.hostname) {
        (Some(u), Some(hn)) => u + "@"@ + hn,
        (Some(u), None) => "user:"@ + u,
        (None, Some(hn)) => hn,
        (None, None) => Seq::<char>::empty(),
    };
    match h.port {
        Some(p) => if h.user is Some || h.hostname is Some {
            head + " "@ + "port:"@ + p
        } else {
            "port:"@ + p
        },
        None => head,
    }
}

pub open spec fn full_display_info(h: HostModel) -> Seq<char> {
    let base = if h.user is Some || h.hostname is Some || h.port is Some {
        display_key(h) + " ("@ + conn_info(h) + ")"@
    } else {
        display_key(h)
    };
    match h.description {
        Some(d) => base + " # "@ + d,
        None => base,
    }
}

pub open spec fn opt_field_matches(o: Option<Seq<char>>, ql: Seq<char>) -> bool {
    match o {
        Some(s) => contains_sub(lower_of(s), ql),
        None => false,
    }
}

/// The search rule: the lowercased query occurs in the lowercased name,
/// hostname, user, display name, description or folder.
pub open spec fn host_matches(h: HostModel, q: Seq<char>) -> bool {
    let ql = lower_of(q);
    contains_sub(lower_of(h.name), ql) || opt_field_matches(h.hostname, ql) || opt_field_matches(
        h.user,
        ql,
    ) || opt_field_matches(h.display_name, ql) || opt_field_matches(h.description, ql)
        || opt_field_matches(h.folder, ql)
}

fn field_matches(s: &String, ql: &str) -> (r: bool)
    ensures
        r == contains_sub(lower_of(s@), ql@),
{
    let lowered = to_lowercase(s.as_str());
    contains_sub_exec(lowered.as_str(), ql)
}

fn opt_matches_exec(o: &Option<String>, ql: &str) -> (r: bool)
    ensures
        r == opt_field_matches(opt_view(*o), ql@),
{
    match o {
        Some(s) => field_matches(s, ql),
        None => false,
    }
}

/// Clones an optional string field, preserving its character content.
pub fn clone_opt_string(o: &Option<String>) -> (r: Option<String>)
    ensures
        opt_view(r) == opt_view(*o),
{
    match o {
        Some(s) => Some(s.clone()),
        None => None,
    }
}

/// Clones an ordered key/value list, preserving its content.
pub fn clone_options(v: &Vec<(String, String)>) -> (r: Vec<(String, String)>)
    ensures
        r.deep_view() == v.deep_view(),
{
    let mut r: Vec<(String, String)> = Vec::new();
    let mut i: usize = 0;
    while i < v.len()
        invariant
            0 <= i <= v.len(),
            r@.len() == i,
            forall|j: int| 0 <= j < i ==> #[trigger] r@[j].deep_view() == v@[j].deep_view(),
        decreases v.len() - i,
    {
        let pair = (v[i].0.clone(), v[i].1.clone());
        proof {
            assert(pair.deep_view() == v@[i as int].deep_view());
        }
        r.push(pair);
        i = i + 1;
    }
    proof {
        assert(r.deep_view() =~= v.deep_view());
    }
    r
}

impl Clone for SshHost {
    /// A deep copy with the same model.
    fn clone(&self) -> (r: Self)
        ensures
            r@ == self@,
    {
        SshHost {
            name: self.name.clone(),
            hostname: clone_opt_string(&self.hostname),
            user: clone_opt_string(&self.user),
            port: clone_opt_string(&self.port),
            identity_file: clone_opt_string(&self.identity_file),
            other_options: clone_options(&self.other_options),
            folder: clone_opt_string(&self.folder),
            display_name: clone_opt_string(&self.display_name),
            description: clone_opt_string(&self.description),
            visible: self.visible,
        }
    }
}

/// Clones a host list, preserving its models.
pub fn clone_hosts(v: &Vec<SshHost>) -> (r: Vec<SshHost>)
    ensures
        r.deep_view() == v.deep_view(),
{
    let mut r: Vec<SshHost> = Vec::new();
    let mut i: usize = 0;
    while i < v.len()
        invariant
            0 <= i <= v.len(),
            r@.len() == i,
            forall|j: int| 0 <= j < i ==> #[trigger] r@[j].deep_view() == v@[j].deep_view(),
        decreases v.len() - i,
    {
        let h = v[i].clone();
        r.push(h);
        i = i + 1;
    }
    proof {
        assert(r.deep_view() =~= v.deep_view());
    }
    r
}

} // verus!
