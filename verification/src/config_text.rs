use vstd::prelude::*;
use vstd::string::StrSliceExecFns;
use vstd::string::StringExecFns;

use crate::diff::cap_seq;
use crate::host::HostModel;
use crate::host::SshHost;
use crate::host::opt_view;
use crate::strutil::find_char;
use crate::strutil::find_char_exec;
use crate::strutil::find_space;
use crate::strutil::find_space_exec;
use crate::strutil::lower_seq;
use crate::strutil::lower_seq_exec;
use crate::strutil::str_eq;
use crate::strutil::trim;
use crate::strutil::trim_exec;
use crate::strutil::upper_char_exec;

verus! {

// ---------------------------------------------------------------------------
// The on-disk format, line by line.
// ---------------------------------------------------------------------------

/// Splits a character sequence at every newline. A trailing newline yields
/// a final empty line, which the parser skips.
pub open spec fn split_lines(s: Seq<char>) -> Seq<Seq<char>>
    decreases s.len(),
{
    if s.len() == 0 {
        seq![Seq::<char>::empty()]
    } else if s[0] == '\n' {
        seq![Seq::<char>::empty()] + split_lines(s.drop_first())
    } else {
        let r = split_lines(s.drop_first());
        seq![seq![s[0]] + r[0]] + r.drop_first()
    }
}

/// Joins lines with one newline after each.
pub open spec fn join_lines(ls: Seq<Seq<char>>) -> Seq<char>
    decreases ls.len(),
{
    if ls.len() == 0 {
        Seq::<char>::empty()
    } else {
        join_lines(ls.drop_last()) + ls.last() + "\n"@
    }
}

// ---------------------------------------------------------------------------
// Parsing.
// ---------------------------------------------------------------------------

/// The parser's state between lines: finished hosts, the host under
/// construction, and metadata comments waiting for their Host line.
#[verifier::ext_equal]
pub struct ParseState {
    pub done: Seq<HostModel>,
    pub cur: Option<HostModel>,
    pub meta_folder: Option<Seq<char>>,
    pub meta_name: Option<Seq<char>>,
    pub meta_desc: Option<Seq<char>>,
    pub meta_visible: Option<bool>,
}

pub open spec fn init_state() -> ParseState {
    ParseState {
        done: Seq::<HostModel>::empty(),
        cur: None,
        meta_folder: None,
        meta_name: None,
        meta_desc: None,
        meta_visible: None,
    }
}

/// Pushes the host under construction, if any.
pub open spec fn flush(st: ParseState) -> ParseState {
    match st.cur {
        Some(h) => ParseState { done: st.done.push(h), cur: None, ..st },
        None => st,
    }
}

/// Replaces the value of `k`, or appends the pair when `k` is new.
pub open spec fn opts_insert(
    opts: Seq<(Seq<char>, Seq<char>)>,
    k: Seq<char>,
    v: Seq<char>,
) -> Seq<(Seq<char>, Seq<char>)>
    decreases opts.len(),
{
    if opts.len() == 0 {
        seq![(k, v)]
    } else if opts[0].0 == k {
        seq![(k, v)] + opts.drop_first()
    } else {
        seq![opts[0]] + opts_insert(opts.drop_first(), k, v)
    }
}

/// The host a `Host` line starts: the name from the line, the waiting
/// metadata applied, everything else absent.
pub open spec fn new_host_with_meta(st: ParseState, name: Seq<char>) -> HostModel {
    HostModel {
        name: name,
        hostname: None,
        user: None,
        port: None,
        identity_file: None,
        other_options: Seq::<(Seq<char>, Seq<char>)>::empty(),
        folder: st.meta_folder,
        display_name: st.meta_name,
        description: st.meta_desc,
        visible: match st.meta_visible {
            Some(b) => b,
            None => true,
        },
    }
}

/// One metadata comment: `# @key: value` records the value; other comments
/// are skipped.
pub open spec fn parse_meta(st: ParseState, t: Seq<char>) -> ParseState {
    if t.len() >= 3 && t[1] == ' ' && t[2] == '@' {
        let rest = trim(t.skip(3));
        let ci = find_char(rest, ':');
        if ci >= 0 {
            let key = trim(rest.take(ci));
            let value = trim(rest.skip(ci + 1));
            if key == "folder"@ {
                ParseState { meta_folder: Some(value), ..st }
            } else if key == "name"@ {
                ParseState { meta_name: Some(value), ..st }
            } else if key == "description"@ {
                ParseState { meta_desc: Some(value), ..st }
            } else if key == "visible"@ {
                ParseState { meta_visible: Some(lower_seq(value) != "false"@), ..st }
            } else {
                st
            }
        } else {
            st
        }
    } else {
        st
    }
}

/// One directive line: `Host` flushes the previous host and starts a new
/// one with the waiting metadata; known fields fill the host under
/// construction when their value is non-empty; unrecognized directives are
/// kept with their key lowercased.
pub open spec fn parse_directive(st: ParseState, t: Seq<char>) -> ParseState {
    let si = find_space(t);
    let keytok = if si < 0 {
        t
    } else {
        t.take(si)
    };
    let value = if si < 0 {
        Seq::<char>::empty()
    } else {
        trim(t.skip(si + 1))
    };
    let key = lower_seq(keytok);
    if key == "host"@ {
        let st1 = flush(st);
        ParseState {
            done: st1.done,
            cur: Some(new_host_with_meta(st, value)),
            meta_folder: None,
            meta_name: None,
            meta_desc: None,
            meta_visible: None,
        }
    } else if key == "hostname"@ {
        match st.cur {
            Some(h) => if value.len() > 0 {
                ParseState { cur: Some(HostModel { hostname: Some(value), ..h }), ..st }
            } else {
                st
            },
            None => st,
        }
    } else if key == "user"@ {
        match st.cur {
            Some(h) => if value.len() > 0 {
                ParseState { cur: Some(HostModel { user: Some(value), ..h }), ..st }
            } else {
                st
            },
            None => st,
        }
    } else if key == "port"@ {
        match st.cur {
            Some(h) => if value.len() > 0 {
                ParseState { cur: Some(HostModel { port: Some(value), ..h }), ..st }
            } else {
                st
            },
            None => st,
        }
    } else if key == "identityfile"@ {
        match st.cur {
            Some(h) => if value.len() > 0 {
                ParseState { cur: Some(HostModel { identity_file: Some(value), ..h }), ..st }
            } else {
                st
            },
            None => st,
        }
    } else {
        match st.cur {
            Some(h) => ParseState {
                cur: Some(
                    HostModel { other_options: opts_insert(h.other_options, key, value), ..h },
                ),
                ..st
            },
            None => st,
        }
    }
}

/// One line of the configuration applied to the parser state.
pub open spec fn parse_line(st: ParseState, line: Seq<char>) -> ParseState {
    let t = trim(line);
    if t.len() == 0 {
        st
    } else if t[0] == '#' {
        parse_meta(st, t)
    } else {
        parse_directive(st, t)
    }
}

pub open spec fn parse_lines(st: ParseState, ls: Seq<Seq<char>>) -> ParseState
    decreases ls.len(),
{
    if ls.len() == 0 {
        st
    } else {
        parse_line(parse_lines(st, ls.drop_last()), ls.last())
    }
}

/// The host list a configuration text denotes.
pub open spec fn parse_spec(text: Seq<char>) -> Seq<HostModel> {
    flush(parse_lines(init_state(), split_lines(text))).done
}

// ---------------------------------------------------------------------------
// Rendering.
// ---------------------------------------------------------------------------

pub open spec fn opt_field_line(label: Seq<char>, o: Option<Seq<char>>) -> Seq<Seq<char>> {
    match o {
        Some(v) => seq![label + v],
        None => Seq::<Seq<char>>::empty(),
    }
}

pub open spec fn render_option_lines(opts: Seq<(Seq<char>, Seq<char>)>) -> Seq<Seq<char>>
    decreases opts.len(),
{
    if opts.len() == 0 {
        Seq::<Seq<char>>::empty()
    } else {
        render_option_lines(opts.drop_last()) + seq![
            "    "@ + cap_seq(opts.last().0) + " "@ + opts.last().1,
        ]
    }
}

/// The lines one host is written as: its metadata comments, the Host
/// header, one line per present field, the unrecognized options with
/// capitalized keys, and a blank separator.
pub open spec fn host_lines(h: HostModel) -> Seq<Seq<char>> {
    opt_field_line("# @folder: "@, h.folder) + opt_field_line("# @name: "@, h.display_name)
        + opt_field_line("# @description: "@, h.description) + (if h.visible {
        Seq::<Seq<char>>::empty()
    } else {
        seq!["# @visible: false"@]
    }) + seq!["Host "@ + h.name] + opt_field_line("    HostName "@, h.hostname) + opt_field_line(
        "    User "@,
        h.user,
    ) + opt_field_line("    Port "@, h.port) + opt_field_line("    IdentityFile "@, h.identity_file)
        + render_option_lines(h.other_options) + seq![Seq::<char>::empty()]
}

pub open spec fn all_lines(hosts: Seq<HostModel>) -> Seq<Seq<char>>
    decreases hosts.len(),
{
    if hosts.len() == 0 {
        Seq::<Seq<char>>::empty()
    } else {
        all_lines(hosts.drop_last()) + host_lines(hosts.last())
    }
}

/// The text a host list is written as.
pub open spec fn render_spec(hosts: Seq<HostModel>) -> Seq<char> {
    join_lines(all_lines(hosts))
}

// ---------------------------------------------------------------------------
// Executable renderer.
// ---------------------------------------------------------------------------

/// Appends `label + value + newline` for a present field.
fn append_opt_line(out: &mut String, label: &str, o: &Option<String>)
    ensures
        final(out)@ == old(out)@ + join_lines(opt_field_line(label@, opt_view(*o))),
{
    let ghost base = out@;
    match o {
        Some(v) => {
            out.append(label);
            out.append(v.as_str());
            out.append("\n");
            proof {
                lemma_join_single(label@ + v@);
                assert(out@ =~= base + join_lines(opt_field_line(label@, opt_view(*o))));
            }
        },
        None => {
            proof {
                assert(out@ =~= base + join_lines(opt_field_line(label@, opt_view(*o))));
            }
        },
    }
}

proof fn lemma_join_single(l: Seq<char>)
    ensures
        join_lines(seq![l]) == l + "\n"@,
{
    assert(seq![l].drop_last() =~= Seq::<Seq<char>>::empty());
    assert(seq![l].last() == l);
    assert(join_lines(Seq::<Seq<char>>::empty()) == Seq::<char>::empty());
    assert(join_lines(seq![l]) == join_lines(seq![l].drop_last()) + l + "\n"@);
    assert(join_lines(seq![l]) =~= l + "\n"@);
}

proof fn lemma_join_append(a: Seq<Seq<char>>, b: Seq<Seq<char>>)
    ensures
        join_lines(a + b) == join_lines(a) + join_lines(b),
    decreases b.len(),
{
    if b.len() == 0 {
        assert(a + b =~= a);
        assert(join_lines(b) =~= Seq::<char>::empty());
        assert(join_lines(a) + join_lines(b) =~= join_lines(a));
    } else {
        assert((a + b).drop_last() =~= a + b.drop_last());
        assert((a + b).last() == b.last());
        lemma_join_append(a, b.drop_last());
        assert(join_lines(a + b) =~= join_lines(a) + join_lines(b));
    }
}

/// The metadata comment lines of a host.
pub open spec fn meta_lines_spec(h: HostModel) -> Seq<Seq<char>> {
    opt_field_line("# @folder: "@, h.folder) + opt_field_line("# @name: "@, h.display_name)
        + opt_field_line("# @description: "@, h.description) + (if h.visible {
        Seq::<Seq<char>>::empty()
    } else {
        seq!["# @visible: false"@]
    })
}

/// The connection field lines of a host.
pub open spec fn field_lines_spec(h: HostModel) -> Seq<Seq<char>> {
    opt_field_line("    HostName "@, h.hostname) + opt_field_line("    User "@, h.user)
        + opt_field_line("    Port "@, h.port) + opt_field_line(
        "    IdentityFile "@,
        h.identity_file,
    )
}

/// Writes the metadata comment lines.
fn render_meta(out: &mut String, h: &SshHost)
    ensures
        final(out)@ == old(out)@ + join_lines(meta_lines_spec(h@)),
{
    let ghost base = out@;
    append_opt_line(out, "# @folder: ", &h.folder);
    append_opt_line(out, "# @name: ", &h.display_name);
    append_opt_line(out, "# @description: ", &h.description);
    if !h.visible {
        out.append("# @visible: false");
        out.append("\n");
    }
    proof {
        lemma_join_append(
            opt_field_line("# @folder: "@, h@.folder),
            opt_field_line("# @name: "@, h@.display_name),
        );
        lemma_join_append(
            opt_field_line("# @folder: "@, h@.folder) + opt_field_line(
                "# @name: "@,
                h@.display_name,
            ),
            opt_field_line("# @description: "@, h@.description),
        );
        lemma_join_append(
            opt_field_line("# @folder: "@, h@.folder) + opt_field_line(
                "# @name: "@,
                h@.display_name,
            ) + opt_field_line("# @description: "@, h@.description),
            (if h@.visible {
                Seq::<Seq<char>>::empty()
            } else {
                seq!["# @visible: false"@]
            }),
        );
        lemma_join_single("# @visible: false"@);
        assert(out@ =~= base + join_lines(meta_lines_spec(h@)));
    }
}

/// Writes the connection field lines.
fn render_fields(out: &mut String, h: &SshHost)
    ensures
        final(out)@ == old(out)@ + join_lines(field_lines_spec(h@)),
{
    let ghost base = out@;
    append_opt_line(out, "    HostName ", &h.hostname);
    append_opt_line(out, "    User ", &h.user);
    append_opt_line(out, "    Port ", &h.port);
    append_opt_line(out, "    IdentityFile ", &h.identity_file);
    proof {
        lemma_join_append(
            opt_field_line("    HostName "@, h@.hostname),
            opt_field_line("    User "@, h@.user),
        );
        lemma_join_append(
            opt_field_line("    HostName "@, h@.hostname) + opt_field_line("    User "@, h@.user),
            opt_field_line("    Port "@, h@.port),
        );
        lemma_join_append(
            opt_field_line("    HostName "@, h@.hostname) + opt_field_line("    User "@, h@.user)
                + opt_field_line("    Port "@, h@.port),
            opt_field_line("    IdentityFile "@, h@.identity_file),
        );
        assert(out@ =~= base + join_lines(field_lines_spec(h@)));
    }
}

/// Writes the unrecognized option lines.
fn render_options(out: &mut String, opts: &Vec<(String, String)>)
    ensures
        final(out)@ == old(out)@ + join_lines(render_option_lines(opts.deep_view())),
{
    let ghost base = out@;
    let mut i: usize = 0;
    proof {
        assert(out@ =~= base + join_lines(render_option_lines(opts.deep_view().take(0))));
    }
    while i < opts.len()
        invariant
            0 <= i <= opts@.len(),
            out@ == base + join_lines(render_option_lines(opts.deep_view().take(i as int))),
        decreases opts@.len() - i,
    {
        let key_cap = capitalize_key(opts[i].0.as_str());
        out.append("    ");
        out.append(key_cap.as_str());
        out.append(" ");
        out.append(opts[i].1.as_str());
        out.append("\n");
        proof {
            let om = opts.deep_view();
            assert(om.take(i + 1).drop_last() =~= om.take(i as int));
            assert(om.take(i + 1).last() == om[i as int]);
            assert(om[i as int] == opts@[i as int].deep_view());
            lemma_join_append(
                render_option_lines(om.take(i as int)),
                seq!["    "@ + cap_seq(om[i as int].0) + " "@ + om[i as int].1],
            );
            lemma_join_single("    "@ + cap_seq(om[i as int].0) + " "@ + om[i as int].1);
            assert(out@ =~= base + join_lines(render_option_lines(om.take(i + 1))));
        }
        i = i + 1;
    }
    proof {
        assert(opts.deep_view().take(opts@.len() as int) =~= opts.deep_view());
    }
}

/// Writes one host's lines.
#[verifier::rlimit(60)]
fn render_host(out: &mut String, h: &SshHost)
    ensures
        final(out)@ == old(out)@ + join_lines(host_lines(h@)),
{
    let ghost base = out@;
    render_meta(out, h);
    out.append("Host ");
    out.append(h.name.as_str());
    out.append("\n");
    render_fields(out, h);
    render_options(out, &h.other_options);
    out.append("\n");
    proof {
        let meta = meta_lines_spec(h@);
        let head = meta + seq!["Host "@ + h@.name];
        let fields = field_lines_spec(h@);
        let opts = render_option_lines(h@.other_options);
        lemma_join_single("Host "@ + h@.name);
        lemma_join_append(meta, seq!["Host "@ + h@.name]);
        lemma_join_append(head, fields);
        lemma_join_append(head + fields, opts);
        lemma_join_append(head + fields + opts, seq![Seq::<char>::empty()]);
        lemma_join_single(Seq::<char>::empty());
        assert(Seq::<char>::empty() + "\n"@ =~= "\n"@);
        assert(host_lines(h@) =~= head + fields + opts + seq![Seq::<char>::empty()]);
        assert(out@ =~= base + join_lines(host_lines(h@)));
    }
}

/// The key with its first character raised to upper case.
fn capitalize_key(k: &str) -> (r: String)
    ensures
        r@ == cap_seq(k@),
{
    let len: usize = k.unicode_len();
    if len == 0 {
        let r = String::new();
        proof {
            assert(r@ =~= cap_seq(k@));
        }
        r
    } else {
        let mut s = String::new();
        crate::strutil::push_char(&mut s, upper_char_exec(k.get_char(0)));
        let rest = k.substring_char(1, len);
        s.append(rest);
        proof {
            assert(s@ =~= cap_seq(k@)) by {
                assert(rest@ =~= k@.drop_first());
                assert(s@ =~= seq![crate::strutil::upper_char(k@[0])] + k@.drop_first());
            }
        }
        s
    }
}

/// Serializes the host list to the configuration text.
pub fn render_ssh_config(hosts: &Vec<SshHost>) -> (r: String)
    ensures
        r@ == render_spec(hosts.deep_view()),
{
    let ghost hm = hosts.deep_view();
    let mut out = String::new();
    let mut i: usize = 0;
    proof {
        assert(out@ =~= join_lines(all_lines(hm.take(0))));
    }
    while i < hosts.len()
        invariant
            0 <= i <= hosts@.len(),
            hm == hosts.deep_view(),
            out@ == join_lines(all_lines(hm.take(i as int))),
        decreases hosts@.len() - i,
    {
        render_host(&mut out, &hosts[i]);
        proof {
            assert(hm.take(i + 1).drop_last() =~= hm.take(i as int));
            assert(hm.take(i + 1).last() == hm[i as int]);
            assert(hm[i as int] == hosts@[i as int].deep_view());
            lemma_join_append(all_lines(hm.take(i as int)), host_lines(hm[i as int]));
            assert(out@ =~= join_lines(all_lines(hm.take(i + 1))));
        }
        i = i + 1;
    }
    proof {
        assert(hm.take(hm.len() as int) =~= hm);
    }
    out
}

// ---------------------------------------------------------------------------
// Executable parser.
// ---------------------------------------------------------------------------

/// Splitting agrees with scanning: when the first `i` characters hold no
/// newline, the split is decided at position `i`.
proof fn lemma_split_prefix(s: Seq<char>, i: int)
    requires
        0 <= i <= s.len(),
        forall|j: int| 0 <= j < i ==> s[j] != '\n',
    ensures
        (i < s.len() && s[i] == '\n') ==> split_lines(s) == seq![s.take(i)] + split_lines(
            s.skip(i + 1),
        ),
        (i == s.len() && (forall|j: int| 0 <= j < s.len() ==> s[j] != '\n')) ==> split_lines(s)
            == seq![s],
    decreases i,
{
    if i == 0 {
        if s.len() == 0 {
            assert(s =~= Seq::<char>::empty());
            assert(split_lines(s) =~= seq![s]);
        } else if s[0] == '\n' {
            assert(s.take(0) =~= Seq::<char>::empty());
            assert(s.skip(1) =~= s.drop_first());
            assert(split_lines(s) =~= seq![s.take(0)] + split_lines(s.skip(1)));
        }
    } else {
        assert(s[0] != '\n');
        assert(s.len() >= 1);
        let d = s.drop_first();
        assert(forall|j: int| 0 <= j < i - 1 ==> #[trigger] d[j] != '\n') by {
            assert(forall|j: int| 0 <= j < i - 1 ==> d[j] == s[j + 1]);
        }
        lemma_split_prefix(d, i - 1);
        let r = split_lines(d);
        if i < s.len() && s[i] == '\n' {
            assert(d[i - 1] == '\n');
            assert(r == seq![d.take(i - 1)] + split_lines(d.skip(i)));
            assert(r[0] == d.take(i - 1));
            assert(r.drop_first() =~= split_lines(d.skip(i)));
            assert(seq![s[0]] + d.take(i - 1) =~= s.take(i));
            assert(d.skip(i) =~= s.skip(i + 1));
            assert(split_lines(s) =~= seq![s.take(i)] + split_lines(s.skip(i + 1)));
        } else if i == s.len() && (forall|j: int| 0 <= j < s.len() ==> s[j] != '\n') {
            assert(forall|j: int| 0 <= j < d.len() ==> #[trigger] d[j] != '\n') by {
                assert(forall|j: int| 0 <= j < d.len() ==> d[j] == s[j + 1]);
            }
            assert(r == seq![d]);
            assert(r[0] == d);
            assert(r.drop_first() =~= Seq::<Seq<char>>::empty());
            assert(seq![s[0]] + d =~= s);
            assert(split_lines(s) =~= seq![s]);
        }
    }
}

/// Finds the next newline at or after `start`.
fn find_newline(s: &str, start: usize, len: usize) -> (r: Option<usize>)
    requires
        start <= len,
        len == s@.len(),
    ensures
        match r {
            Some(p) => start <= p < len && s@[p as int] == '\n' && forall|j: int|
                start <= j < p ==> s@[j] != '\n',
            None => forall|j: int| start <= j < len ==> s@[j] != '\n',
        },
{
    let mut p: usize = start;
    while p < len
        invariant
            start <= p <= len,
            len == s@.len(),
            forall|j: int| start <= j < p ==> s@[j] != '\n',
        decreases len - p,
    {
        if s.get_char(p) == '\n' {
            return Some(p);
        }
        p = p + 1;
    }
    None
}

/// Splits a configuration text into its lines.
fn split_lines_exec(s: &str) -> (r: Vec<String>)
    ensures
        r.deep_view() == split_lines(s@),
{
    let len: usize = s.unicode_len();
    let mut r: Vec<String> = Vec::new();
    let mut start: usize = 0;
    proof {
        assert(s@.skip(0) =~= s@);
        assert(r.deep_view() + split_lines(s@) =~= split_lines(s@));
    }
    loop
        invariant
            0 <= start <= len,
            len == s@.len(),
            split_lines(s@) == r.deep_view() + split_lines(s@.skip(start as int)),
        decreases len - start,
    {
        let ghost prev = r.deep_view();
        match find_newline(s, start, len) {
            Some(p) => {
                let line = String::from_str(s.substring_char(start, p));
                r.push(line);
                proof {
                    let tail = s@.skip(start as int);
                    assert(forall|j: int|
                        0 <= j < p - start ==> #[trigger] tail[j] != '\n') by {
                        assert(forall|j: int| 0 <= j < p - start ==> tail[j] == s@[start + j]);
                    }
                    assert(tail[p - start] == s@[p as int]);
                    lemma_split_prefix(tail, p - start);
                    assert(tail.take(p - start) =~= s@.subrange(start as int, p as int));
                    assert(tail.skip(p - start + 1) =~= s@.skip(p + 1));
                    assert(r.deep_view() =~= prev + seq![s@.subrange(start as int, p as int)]);
                    assert(split_lines(s@) =~= r.deep_view() + split_lines(s@.skip(p + 1)));
                }
                start = p + 1;
            },
            None => {
                let line = String::from_str(s.substring_char(start, len));
                r.push(line);
                proof {
                    let tail = s@.skip(start as int);
                    assert(forall|j: int|
                        0 <= j < tail.len() ==> #[trigger] tail[j] != '\n') by {
                        assert(forall|j: int| 0 <= j < tail.len() ==> tail[j] == s@[start + j]);
                    }
                    lemma_split_prefix(tail, tail.len() as int);
                    assert(split_lines(tail) == seq![tail]);
                    assert(tail =~= s@.subrange(start as int, len as int));
                    assert(r.deep_view() =~= prev + seq![tail]);
                    assert(r.deep_view() =~= split_lines(s@));
                }
                return r;
            },
        }
    }
}

/// The parser's working state.
struct Parser {
    done: Vec<SshHost>,
    cur: Option<SshHost>,
    meta_folder: Option<String>,
    meta_name: Option<String>,
    meta_desc: Option<String>,
    meta_visible: Option<bool>,
}

pub open spec fn opt_host_view(o: Option<SshHost>) -> Option<HostModel> {
    match o {
        Some(h) => Some(h@),
        None => None,
    }
}

impl View for Parser {
    type V = ParseState;

    closed spec fn view(&self) -> ParseState {
        ParseState {
            done: self.done.deep_view(),
            cur: opt_host_view(self.cur),
            meta_folder: opt_view(self.meta_folder),
            meta_name: opt_view(self.meta_name),
            meta_desc: opt_view(self.meta_desc),
            meta_visible: self.meta_visible,
        }
    }
}

/// Appends one finished host.
fn push_done(done: &mut Vec<SshHost>, h: &SshHost)
    ensures
        final(done).deep_view() == old(done).deep_view().push(h@),
{
    let ghost prev = done.deep_view();
    let hc = h.clone();
    done.push(hc);
    proof {
        assert(done.deep_view() =~= prev.push(h@));
    }
}

/// Replaces the value of `k`, or appends the pair when `k` is new.
fn opts_insert_exec(opts: &mut Vec<(String, String)>, k: String, v: String)
    ensures
        final(opts).deep_view() == opts_insert(old(opts).deep_view(), k@, v@),
{
    let ghost om = opts.deep_view();
    let mut i: usize = 0;
    while i < opts.len()
        invariant
            0 <= i <= opts@.len(),
            om == opts.deep_view(),
            opts@ == old(opts)@,
            forall|j: int| 0 <= j < i ==> #[trigger] om[j].0 != k@,
        decreases opts@.len() - i,
    {
        if str_eq(opts[i].0.as_str(), k.as_str()) {
            proof {
                lemma_opts_insert_skip(om, k@, v@, i as int);
                assert(om.skip(i as int)[0] == om[i as int]);
                assert(om.skip(i as int)[0].0 == k@);
                assert(opts_insert(om.skip(i as int), k@, v@) == seq![(k@, v@)] + om.skip(
                    i as int,
                ).drop_first());
                assert(om.skip(i as int).drop_first() =~= om.skip(i + 1));
            }
            let ghost prev = opts.deep_view();
            opts.set(i, (k, v));
            proof {
                assert(opts.deep_view() =~= om.take(i as int) + (seq![(k@, v@)] + om.skip(i + 1)));
            }
            return ;
        }
        proof {
            assert(om[i as int] == opts@[i as int].deep_view());
        }
        i = i + 1;
    }
    proof {
        lemma_opts_insert_skip(om, k@, v@, om.len() as int);
        assert(om.skip(om.len() as int).len() == 0);
        assert(opts_insert(om.skip(om.len() as int), k@, v@) =~= seq![(k@, v@)]);
        assert(om.take(om.len() as int) =~= om);
    }
    let ghost kk = k@;
    let ghost vv = v@;
    opts.push((k, v));
    proof {
        assert(opts.deep_view() =~= om.push((kk, vv)));
        assert(om + opts_insert(om.skip(om.len() as int), kk, vv) =~= om.push((kk, vv)));
    }
}

/// Scanning past distinct keys decomposes the insertion.
proof fn lemma_opts_insert_skip(opts: Seq<(Seq<char>, Seq<char>)>, k: Seq<char>, v: Seq<char>, i: int)
    requires
        0 <= i <= opts.len(),
        forall|j: int| 0 <= j < i ==> #[trigger] opts[j].0 != k,
    ensures
        opts_insert(opts, k, v) == opts.take(i) + opts_insert(opts.skip(i), k, v),
    decreases i,
{
    if i == 0 {
        assert(opts.skip(0) =~= opts);
        assert(opts.take(0) + opts_insert(opts, k, v) =~= opts_insert(opts, k, v));
    } else {
        assert(opts[0].0 != k);
        assert(opts.len() > 0);
        let d = opts.drop_first();
        assert(forall|j: int| 0 <= j < i - 1 ==> #[trigger] d[j].0 != k) by {
            assert(forall|j: int| 0 <= j < i - 1 ==> d[j] == opts[j + 1]);
        }
        lemma_opts_insert_skip(d, k, v, i - 1);
        assert(d.take(i - 1) =~= opts.take(i).drop_first());
        assert(d.skip(i - 1) =~= opts.skip(i));
        assert(opts_insert(opts, k, v) == seq![opts[0]] + opts_insert(d, k, v));
        assert(seq![opts[0]] + (d.take(i - 1) + opts_insert(d.skip(i - 1), k, v)) =~= opts.take(i)
            + opts_insert(opts.skip(i), k, v));
    }
}

/// Applies one metadata comment line (already trimmed, starting with `#`).
fn parse_meta_exec(p: &mut Parser, t: &str, tlen: usize)
    requires
        tlen == t@.len(),
        t@.len() > 0,
        t@[0] == '#',
    ensures
        final(p)@ == parse_meta(old(p)@, t@),
{
    if tlen >= 3 && t.get_char(1) == ' ' && t.get_char(2) == '@' {
        let rest_raw = t.substring_char(3, tlen);
        let rest = trim_exec(rest_raw);
        proof {
            assert(rest_raw@ =~= t@.skip(3));
        }
        let rlen = rest.unicode_len();
        match find_char_exec(rest, ':') {
            Some(ci) => {
                proof {
                    crate::strutil::lemma_find_char_props(rest@, ':');
                }
                let key_raw = rest.substring_char(0, ci);
                let key = trim_exec(key_raw);
                let val_raw = rest.substring_char(ci + 1, rlen);
                let value = trim_exec(val_raw);
                proof {
                    assert(key_raw@ =~= rest@.take(ci as int));
                    assert(val_raw@ =~= rest@.skip(ci + 1));
                }
                if str_eq(key, "folder") {
                    p.meta_folder = Some(String::from_str(value));
                    proof {
                        assert(p@ =~= parse_meta(old(p)@, t@));
                    }
                } else if str_eq(key, "name") {
                    p.meta_name = Some(String::from_str(value));
                    proof {
                        assert(p@ =~= parse_meta(old(p)@, t@));
                    }
                } else if str_eq(key, "description") {
                    p.meta_desc = Some(String::from_str(value));
                    proof {
                        assert(p@ =~= parse_meta(old(p)@, t@));
                    }
                } else if str_eq(key, "visible") {
                    let lv = lower_seq_exec(value);
                    p.meta_visible = Some(!str_eq(lv.as_str(), "false"));
                    proof {
                        assert(p@ =~= parse_meta(old(p)@, t@));
                    }
                } else {
                    proof {
                        assert(p@ =~= parse_meta(old(p)@, t@));
                    }
                }
            },
            None => {
                proof {
                    assert(p@ =~= parse_meta(old(p)@, t@));
                }
            },
        }
    } else {
        proof {
            assert(p@ =~= parse_meta(old(p)@, t@));
        }
    }
}

/// Applies one directive line (already trimmed, non-empty, not a comment).
#[verifier::rlimit(60)]
fn parse_directive_exec(p: &mut Parser, t: &str, tlen: usize)
    requires
        tlen == t@.len(),
        t@.len() > 0,
    ensures
        final(p)@ == parse_directive(old(p)@, t@),
{
    let (keytok, value): (String, String) = match find_space_exec(t) {
        Some(si) => {
            proof {
                crate::strutil::lemma_find_space_props(t@);
            }
            let kr = t.substring_char(0, si);
            let vr = trim_exec(t.substring_char(si + 1, tlen));
            proof {
                assert(kr@ =~= t@.take(si as int));
                assert(t@.subrange(si + 1, tlen as int) =~= t@.skip(si + 1));
            }
            (String::from_str(kr), String::from_str(vr))
        },
        None => (String::from_str(t), String::new()),
    };
    let key = lower_seq_exec(keytok.as_str());
    if str_eq(key.as_str(), "host") {
        match &p.cur {
            Some(h) => {
                let hc = h.clone();
                push_done(&mut p.done, &hc);
            },
            None => {},
        }
        let mut nh = SshHost::new(value);
        nh.folder = crate::host::clone_opt_string(&p.meta_folder);
        nh.display_name = crate::host::clone_opt_string(&p.meta_name);
        nh.description = crate::host::clone_opt_string(&p.meta_desc);
        nh.visible = match p.meta_visible {
            Some(b) => b,
            None => true,
        };
        p.cur = Some(nh);
        p.meta_folder = None;
        p.meta_name = None;
        p.meta_desc = None;
        p.meta_visible = None;
        proof {
            assert(p@.cur->0 =~= parse_directive(old(p)@, t@).cur->0);
            assert(p@ =~= parse_directive(old(p)@, t@));
        }
    } else if str_eq(key.as_str(), "hostname") {
        let nonempty = !value.as_str().is_empty();
        match &mut p.cur {
            Some(h) => {
                if nonempty {
                    h.hostname = Some(value);
                }
            },
            None => {},
        }
        proof {
            assert(p@ =~= parse_directive(old(p)@, t@));
        }
    } else if str_eq(key.as_str(), "user") {
        let nonempty = !value.as_str().is_empty();
        match &mut p.cur {
            Some(h) => {
                if nonempty {
                    h.user = Some(value);
                }
            },
            None => {},
        }
        proof {
            assert(p@ =~= parse_directive(old(p)@, t@));
        }
    } else if str_eq(key.as_str(), "port") {
        let nonempty = !value.as_str().is_empty();
        match &mut p.cur {
            Some(h) => {
                if nonempty {
                    h.port = Some(value);
                }
            },
            None => {},
        }
        proof {
            assert(p@ =~= parse_directive(old(p)@, t@));
        }
    } else if str_eq(key.as_str(), "identityfile") {
        let nonempty = !value.as_str().is_empty();
        match &mut p.cur {
            Some(h) => {
                if nonempty {
                    h.identity_file = Some(value);
                }
            },
            None => {},
        }
        proof {
            assert(p@ =~= parse_directive(old(p)@, t@));
        }
    } else {
        match &mut p.cur {
            Some(h) => {
                opts_insert_exec(&mut h.other_options, key, value);
            },
            None => {},
        }
        proof {
            assert(p@ =~= parse_directive(old(p)@, t@));
        }
    }
}

/// Applies one configuration line.
fn parse_line_exec(p: &mut Parser, line: &str)
    ensures
        final(p)@ == parse_line(old(p)@, line@),
{
    let t = trim_exec(line);
    let tlen = t.unicode_len();
    if tlen == 0 {
        return ;
    }
    if t.get_char(0) == '#' {
        parse_meta_exec(p, t, tlen);
    } else {
        parse_directive_exec(p, t, tlen);
    }
}

/// Parses a configuration text into its host list. A file's text maps to
/// exactly the hosts `parse_spec` gives it.
pub fn parse_ssh_config_text(content: &str) -> (hosts: Vec<SshHost>)
    ensures
        hosts.deep_view() == parse_spec(content@),
{
    let lines = split_lines_exec(content);
    let mut p = Parser {
        done: Vec::new(),
        cur: None,
        meta_folder: None,
        meta_name: None,
        meta_desc: None,
        meta_visible: None,
    };
    proof {
        assert(p@ =~= init_state());
        assert(p@ =~= parse_lines(init_state(), lines.deep_view().take(0)));
    }
    let mut i: usize = 0;
    while i < lines.len()
        invariant
            0 <= i <= lines@.len(),
            lines.deep_view() == split_lines(content@),
            p@ == parse_lines(init_state(), lines.deep_view().take(i as int)),
        decreases lines@.len() - i,
    {
        parse_line_exec(&mut p, lines[i].as_str());
        proof {
            let lm = lines.deep_view();
            assert(lm.take(i + 1).drop_last() =~= lm.take(i as int));
            assert(lm.take(i + 1).last() == lm[i as int]);
            assert(lm[i as int] == lines@[i as int]@);
            assert(p@ == parse_lines(init_state(), lm.take(i + 1)));
        }
        i = i + 1;
    }
    proof {
        assert(lines.deep_view().take(lines@.len() as int) =~= lines.deep_view());
    }
    match &p.cur {
        Some(h) => {
            let hc = h.clone();
            push_done(&mut p.done, &hc);
        },
        None => {},
    }
    proof {
        assert(p.done.deep_view() =~= parse_spec(content@));
    }
    p.done
}

// ---------------------------------------------------------------------------
// The write-then-read round trip.
// ---------------------------------------------------------------------------

/// A value the format stores verbatim: trimmed and free of newlines.
pub open spec fn clean_text(s: Seq<char>) -> bool {
    trim(s) == s && forall|i: int| 0 <= i < s.len() ==> #[trigger] s[i] != '\n'
}

pub open spec fn clean_opt(o: Option<Seq<char>>) -> bool {
    match o {
        Some(v) => clean_text(v) && v.len() > 0,
        None => true,
    }
}

/// An unrecognized directive key the format keeps: non-empty, already
/// lowercase, free of whitespace and newlines, and none of the five
/// recognized directives.
pub open spec fn plain_key(k: Seq<char>) -> bool {
    &&& k.len() > 0
    &&& k == lower_seq(k)
    &&& forall|i: int|
        0 <= i < k.len() ==> !crate::strutil::is_space(#[trigger] k[i]) && k[i] != '\n'
    &&& k[0] != '#'
    &&& k != "host"@
    &&& k != "hostname"@
    &&& k != "user"@
    &&& k != "port"@
    &&& k != "identityfile"@
}

/// A host the format can write and read back unchanged: every present
/// field trimmed, newline-free and non-empty, and the unrecognized
/// options carrying distinct plain keys with clean values.
pub open spec fn writable_host(h: HostModel) -> bool {
    &&& clean_text(h.name)
    &&& clean_opt(h.hostname)
    &&& clean_opt(h.user)
    &&& clean_opt(h.port)
    &&& clean_opt(h.identity_file)
    &&& clean_opt(h.folder)
    &&& clean_opt(h.display_name)
    &&& clean_opt(h.description)
    &&& forall|i: int|
        0 <= i < h.other_options.len() ==> plain_key(#[trigger] h.other_options[i].0)
            && clean_text(h.other_options[i].1)
    &&& forall|i: int, j: int|
        0 <= i < j < h.other_options.len() ==> (#[trigger] h.other_options[i]).0
            != (#[trigger] h.other_options[j]).0
}

/// Parsing distributes over concatenation of line lists.
proof fn lemma_parse_lines_append(st: ParseState, a: Seq<Seq<char>>, b: Seq<Seq<char>>)
    ensures
        parse_lines(st, a + b) == parse_lines(parse_lines(st, a), b),
    decreases b.len(),
{
    if b.len() == 0 {
        assert(a + b =~= a);
    } else {
        assert((a + b).drop_last() =~= a + b.drop_last());
        assert((a + b).last() == b.last());
        lemma_parse_lines_append(st, a, b.drop_last());
    }
}

/// Joining seen from the front.
proof fn lemma_join_front(ls: Seq<Seq<char>>)
    requires
        ls.len() > 0,
    ensures
        join_lines(ls) == ls[0] + "\n"@ + join_lines(ls.drop_first()),
    decreases ls.len(),
{
    if ls.len() == 1 {
        assert(ls.drop_last() =~= Seq::<Seq<char>>::empty());
        assert(ls.drop_first() =~= Seq::<Seq<char>>::empty());
        assert(ls.last() == ls[0]);
        assert(join_lines(ls) =~= ls[0] + "\n"@ + join_lines(ls.drop_first()));
    } else {
        let dl = ls.drop_last();
        lemma_join_front(dl);
        assert(dl[0] == ls[0]);
        assert(dl.drop_first() =~= ls.drop_first().drop_last());
        assert(ls.drop_first().len() > 0);
        assert(ls.drop_first().last() == ls.last());
        assert(join_lines(ls.drop_first()) == join_lines(ls.drop_first().drop_last())
            + ls.last() + "\n"@);
        assert(join_lines(ls) =~= ls[0] + "\n"@ + join_lines(ls.drop_first()));
    }
}

/// Splitting undoes joining, up to the final empty line a trailing
/// newline leaves behind.
proof fn lemma_split_join(ls: Seq<Seq<char>>)
    requires
        forall|i: int, j: int|
            0 <= i < ls.len() && 0 <= j < ls[i].len() ==> #[trigger] ls[i][j] != '\n',
    ensures
        split_lines(join_lines(ls)) == ls + seq![Seq::<char>::empty()],
    decreases ls.len(),
{
    if ls.len() == 0 {
        assert(join_lines(ls).len() == 0);
        assert(split_lines(join_lines(ls)) =~= ls + seq![Seq::<char>::empty()]);
    } else {
        lemma_join_front(ls);
        reveal_strlit("\n");
        let l0 = ls[0];
        let rest = join_lines(ls.drop_first());
        let whole = join_lines(ls);
        assert(whole == l0 + "\n"@ + rest);
        assert(whole.len() == l0.len() + 1 + rest.len());
        assert(forall|j: int| 0 <= j < l0.len() ==> #[trigger] whole[j] == l0[j]);
        assert(forall|j: int| 0 <= j < l0.len() ==> #[trigger] whole[j] != '\n') by {
            assert(forall|j: int| 0 <= j < l0.len() ==> #[trigger] l0[j] != '\n');
        }
        assert(whole[l0.len() as int] == '\n') by {
            assert((l0 + "\n"@ + rest)[l0.len() as int] == "\n"@[0]);
        }
        lemma_split_prefix(whole, l0.len() as int);
        assert(whole.take(l0.len() as int) =~= l0);
        assert(whole.skip(l0.len() as int + 1) =~= rest);
        assert(forall|i: int, j: int|
            0 <= i < ls.drop_first().len() && 0 <= j < ls.drop_first()[i].len()
                ==> #[trigger] ls.drop_first()[i][j] != '\n') by {
            assert(forall|i: int| 0 <= i < ls.drop_first().len() ==> #[trigger] ls.drop_first()[i]
                == ls[i + 1]);
        }
        lemma_split_join(ls.drop_first());
        assert(split_lines(whole) =~= ls + seq![Seq::<char>::empty()]);
    }
}

/// A rendered folder comment parses back to its value.
proof fn lemma_folder_line(st: ParseState, v: Seq<char>)
    requires
        clean_text(v),
        v.len() > 0,
    ensures
        parse_line(st, "# @folder: "@ + v) == (ParseState { meta_folder: Some(v), ..st }),
{
    reveal_strlit("# @folder: ");
    reveal_strlit("folder: ");
    reveal_strlit("folder");
    let line = "# @folder: "@ + v;
    crate::strutil::lemma_clean_ends(v);
    assert(line[0] == '#');
    assert(line.last() == v.last());
    crate::strutil::lemma_trim_id(line);
    assert(trim(line) == line);
    assert(line.len() >= 3);
    assert(line[1] == ' ' && line[2] == '@');
    let rest_raw = line.skip(3);
    assert(rest_raw =~= "folder: "@ + v);
    crate::strutil::lemma_trim_id(rest_raw);
    let rest = rest_raw;
    assert(find_char(rest, ':') == 6) by {
        assert(rest[6] == ':');
        assert(forall|j: int| 0 <= j < 6 ==> #[trigger] rest[j] != ':');
        crate::strutil::lemma_find_char_at(rest, ':', 6);
    }
    assert(trim(rest.take(6)) == "folder"@) by {
        assert(rest.take(6) =~= "folder"@);
        crate::strutil::lemma_trim_id("folder"@);
    }
    assert(trim(rest.skip(7)) == v) by {
        assert(rest.skip(7) =~= seq![' '] + v);
        crate::strutil::lemma_trim_front_skip(seq![' '] + v, 1);
        assert((seq![' '] + v).skip(1) =~= v);
        crate::strutil::lemma_trim_front_id(v);
        crate::strutil::lemma_trim_back_id(v);
    }
    assert(parse_line(st, line) =~= (ParseState { meta_folder: Some(v), ..st }));
}

/// A rendered display-name comment parses back to its value.
proof fn lemma_name_line(st: ParseState, v: Seq<char>)
    requires
        clean_text(v),
        v.len() > 0,
    ensures
        parse_line(st, "# @name: "@ + v) == (ParseState { meta_name: Some(v), ..st }),
{
    reveal_strlit("# @name: ");
    reveal_strlit("name: ");
    reveal_strlit("name");
    reveal_strlit("folder");
    let line = "# @name: "@ + v;
    crate::strutil::lemma_clean_ends(v);
    assert(line[0] == '#');
    assert(line.last() == v.last());
    crate::strutil::lemma_trim_id(line);
    assert(line.len() >= 3);
    assert(line[1] == ' ' && line[2] == '@');
    let rest = line.skip(3);
    assert(rest =~= "name: "@ + v);
    crate::strutil::lemma_trim_id(rest);
    assert(find_char(rest, ':') == 4) by {
        assert(rest[4] == ':');
        assert(forall|j: int| 0 <= j < 4 ==> #[trigger] rest[j] != ':');
        crate::strutil::lemma_find_char_at(rest, ':', 4);
    }
    assert(trim(rest.take(4)) == "name"@) by {
        assert(rest.take(4) =~= "name"@);
        crate::strutil::lemma_trim_id("name"@);
    }
    assert("name"@ != "folder"@) by {
        assert("name"@.len() == 4 && "folder"@.len() == 6);
    }
    assert(trim(rest.skip(5)) == v) by {
        assert(rest.skip(5) =~= seq![' '] + v);
        crate::strutil::lemma_trim_front_skip(seq![' '] + v, 1);
        assert((seq![' '] + v).skip(1) =~= v);
        crate::strutil::lemma_trim_front_id(v);
        crate::strutil::lemma_trim_back_id(v);
    }
    assert(parse_line(st, line) =~= (ParseState { meta_name: Some(v), ..st }));
}

/// A rendered description comment parses back to its value.
proof fn lemma_description_line(st: ParseState, v: Seq<char>)
    requires
        clean_text(v),
        v.len() > 0,
    ensures
        parse_line(st, "# @description: "@ + v) == (ParseState { meta_desc: Some(v), ..st }),
{
    reveal_strlit("# @description: ");
    reveal_strlit("description: ");
    reveal_strlit("description");
    reveal_strlit("folder");
    reveal_strlit("name");
    let line = "# @description: "@ + v;
    crate::strutil::lemma_clean_ends(v);
    assert(line[0] == '#');
    assert(line.last() == v.last());
    crate::strutil::lemma_trim_id(line);
    assert(line.len() >= 3);
    assert(line[1] == ' ' && line[2] == '@');
    let rest = line.skip(3);
    assert(rest =~= "description: "@ + v);
    crate::strutil::lemma_trim_id(rest);
    assert(find_char(rest, ':') == 11) by {
        assert(rest[11] == ':');
        assert(forall|j: int| 0 <= j < 11 ==> #[trigger] rest[j] != ':');
        crate::strutil::lemma_find_char_at(rest, ':', 11);
    }
    assert(trim(rest.take(11)) == "description"@) by {
        assert(rest.take(11) =~= "description"@);
        crate::strutil::lemma_trim_id("description"@);
    }
    assert("description"@ != "folder"@ && "description"@ != "name"@) by {
        assert("description"@.len() == 11 && "folder"@.len() == 6 && "name"@.len() == 4);
    }
    assert(trim(rest.skip(12)) == v) by {
        assert(rest.skip(12) =~= seq![' '] + v);
        crate::strutil::lemma_trim_front_skip(seq![' '] + v, 1);
        assert((seq![' '] + v).skip(1) =~= v);
        crate::strutil::lemma_trim_front_id(v);
        crate::strutil::lemma_trim_back_id(v);
    }
    assert(parse_line(st, line) =~= (ParseState { meta_desc: Some(v), ..st }));
}

/// The rendered hidden-host comment parses back to `visible: false`.
proof fn lemma_visible_line(st: ParseState)
    ensures
        parse_line(st, "# @visible: false"@) == (ParseState { meta_visible: Some(false), ..st }),
{
    reveal_strlit("# @visible: false");
    reveal_strlit("visible: false");
    reveal_strlit("visible");
    reveal_strlit("false");
    reveal_strlit("folder");
    reveal_strlit("name");
    reveal_strlit("description");
    let line = "# @visible: false"@;
    crate::strutil::lemma_trim_id(line);
    assert(line.len() >= 3);
    assert(line[0] == '#' && line[1] == ' ' && line[2] == '@');
    let rest = line.skip(3);
    assert(rest =~= "visible: false"@);
    crate::strutil::lemma_trim_id(rest);
    assert(find_char(rest, ':') == 7) by {
        assert(rest[7] == ':');
        assert(forall|j: int| 0 <= j < 7 ==> #[trigger] rest[j] != ':');
        crate::strutil::lemma_find_char_at(rest, ':', 7);
    }
    assert(trim(rest.take(7)) == "visible"@) by {
        assert(rest.take(7) =~= "visible"@);
        crate::strutil::lemma_trim_id("visible"@);
    }
    assert("visible"@ != "folder"@ && "visible"@ != "name"@ && "visible"@ != "description"@) by {
        assert("visible"@.len() == 7 && "folder"@.len() == 6 && "name"@.len() == 4
            && "description"@.len() == 11);
        assert("visible"@[0] == 'v' && "folder"@[0] == 'f');
    }
    assert(trim(rest.skip(8)) == "false"@) by {
        assert(rest.skip(8) =~= seq![' '] + "false"@);
        crate::strutil::lemma_trim_front_skip(seq![' '] + "false"@, 1);
        assert((seq![' '] + "false"@).skip(1) =~= "false"@);
        crate::strutil::lemma_trim_id("false"@);
    }
    assert(lower_seq("false"@) == "false"@) by {
        assert(lower_seq("false"@) =~= "false"@);
    }
    assert(parse_line(st, line) =~= (ParseState { meta_visible: Some(false), ..st }));
}

/// A rendered Host header flushes the previous host and starts the new
/// one, with the waiting metadata applied.
proof fn lemma_host_line(st: ParseState, name: Seq<char>)
    requires
        clean_text(name),
    ensures
        parse_line(st, "Host "@ + name) == (ParseState {
            done: flush(st).done,
            cur: Some(new_host_with_meta(st, name)),
            meta_folder: None,
            meta_name: None,
            meta_desc: None,
            meta_visible: None,
        }),
{
    reveal_strlit("Host ");
    reveal_strlit("Host");
    reveal_strlit("host");
    let line = "Host "@ + name;
    if name.len() == 0 {
        assert(line =~= "Host "@);
        assert(trim(line) == "Host"@) by {
            crate::strutil::lemma_trim_front_id(line);
            crate::strutil::lemma_trim_back_take(line, 4);
            assert(line.take(4) =~= "Host"@);
            crate::strutil::lemma_trim_back_id("Host"@);
        }
        let t = "Host"@;
        assert(find_space(t) < 0) by {
            crate::strutil::lemma_find_space_none(t);
        }
        assert(lower_seq(t) == "host"@) by {
            assert(lower_seq(t) =~= "host"@);
        }
        assert(t[0] != '#');
        assert(parse_line(st, line) =~= (ParseState {
            done: flush(st).done,
            cur: Some(new_host_with_meta(st, name)),
            meta_folder: None,
            meta_name: None,
            meta_desc: None,
            meta_visible: None,
        }));
    } else {
        crate::strutil::lemma_clean_ends(name);
        assert(line[0] == 'H');
        assert(line.last() == name.last());
        crate::strutil::lemma_trim_id(line);
        let t = line;
        assert(find_space(t) == 4) by {
            assert(crate::strutil::is_space(t[4]));
            assert(forall|j: int| 0 <= j < 4 ==> !crate::strutil::is_space(#[trigger] t[j]));
            crate::strutil::lemma_find_space_at(t, 4);
        }
        assert(lower_seq(t.take(4)) == "host"@) by {
            assert(t.take(4) =~= "Host"@);
            assert(lower_seq("Host"@) =~= "host"@);
        }
        assert(trim(t.skip(5)) == name) by {
            assert(t.skip(5) =~= name);
            crate::strutil::lemma_trim_front_id(name);
            crate::strutil::lemma_trim_back_id(name);
        }
        assert(t[0] != '#');
        assert(parse_line(st, line) =~= (ParseState {
            done: flush(st).done,
            cur: Some(new_host_with_meta(st, name)),
            meta_folder: None,
            meta_name: None,
            meta_desc: None,
            meta_visible: None,
        }));
    }
}

/// A rendered HostName line parses back into the host under construction.
proof fn lemma_hostname_line(st: ParseState, v: Seq<char>)
    requires
        clean_text(v),
        v.len() > 0,
        st.cur is Some,
    ensures
        parse_line(st, "    HostName "@ + v) == (ParseState {
            cur: Some(HostModel { hostname: Some(v), ..st.cur->0 }),
            ..st
        }),
{
    reveal_strlit("    HostName ");
    reveal_strlit("HostName ");
    reveal_strlit("HostName");
    reveal_strlit("hostname");
    reveal_strlit("host");
    reveal_strlit("hostname");
    reveal_strlit("user");
    reveal_strlit("port");
    let line = "    HostName "@ + v;
    crate::strutil::lemma_clean_ends(v);
    assert(line.last() == v.last());
    let t0 = line.skip(4);
    assert(t0 =~= "HostName "@ + v);
    assert(trim(line) == t0) by {
        crate::strutil::lemma_trim_front_skip(line, 4);
        crate::strutil::lemma_trim_front_id(t0);
        crate::strutil::lemma_trim_back_id(t0);
    }
    let t = t0;
    assert(find_space(t) == 8) by {
        assert(crate::strutil::is_space(t[8]));
        assert(forall|j: int| 0 <= j < 8 ==> !crate::strutil::is_space(#[trigger] t[j]));
        crate::strutil::lemma_find_space_at(t, 8);
    }
    assert(lower_seq(t.take(8)) == "hostname"@) by {
        assert(t.take(8) =~= "HostName"@);
        assert(lower_seq("HostName"@) =~= "hostname"@);
    }
    assert("hostname"@ != "host"@) by {
        assert("hostname"@.len() == 8 && "host"@.len() == 4);
    }
    assert(trim(t.skip(9)) == v) by {
        assert(t.skip(9) =~= v);
        crate::strutil::lemma_trim_front_id(v);
        crate::strutil::lemma_trim_back_id(v);
    }
    assert(t[0] != '#');
    assert(parse_line(st, line) =~= (ParseState {
        cur: Some(HostModel { hostname: Some(v), ..st.cur->0 }),
        ..st
    }));
}

/// A rendered User line parses back into the host under construction.
proof fn lemma_user_line(st: ParseState, v: Seq<char>)
    requires
        clean_text(v),
        v.len() > 0,
        st.cur is Some,
    ensures
        parse_line(st, "    User "@ + v) == (ParseState {
            cur: Some(HostModel { user: Some(v), ..st.cur->0 }),
            ..st
        }),
{
    reveal_strlit("    User ");
    reveal_strlit("User ");
    reveal_strlit("User");
    reveal_strlit("user");
    reveal_strlit("host");
    reveal_strlit("hostname");
    reveal_strlit("user");
    reveal_strlit("port");
    let line = "    User "@ + v;
    crate::strutil::lemma_clean_ends(v);
    assert(line.last() == v.last());
    let t0 = line.skip(4);
    assert(t0 =~= "User "@ + v);
    assert(trim(line) == t0) by {
        crate::strutil::lemma_trim_front_skip(line, 4);
        crate::strutil::lemma_trim_front_id(t0);
        crate::strutil::lemma_trim_back_id(t0);
    }
    let t = t0;
    assert(find_space(t) == 4) by {
        assert(crate::strutil::is_space(t[4]));
        assert(forall|j: int| 0 <= j < 4 ==> !crate::strutil::is_space(#[trigger] t[j]));
        crate::strutil::lemma_find_space_at(t, 4);
    }
    assert(lower_seq(t.take(4)) == "user"@) by {
        assert(t.take(4) =~= "User"@);
        assert(lower_seq("User"@) =~= "user"@);
    }
    assert("user"@ != "host"@) by {
        assert("user"@[0] == 'u' && "host"@[0] == 'h');
    }
    assert("user"@ != "hostname"@) by {
        assert("user"@.len() == 4 && "hostname"@.len() == 8);
    }
    assert(trim(t.skip(5)) == v) by {
        assert(t.skip(5) =~= v);
        crate::strutil::lemma_trim_front_id(v);
        crate::strutil::lemma_trim_back_id(v);
    }
    assert(t[0] != '#');
    assert(parse_line(st, line) =~= (ParseState {
        cur: Some(HostModel { user: Some(v), ..st.cur->0 }),
        ..st
    }));
}

/// A rendered Port line parses back into the host under construction.
proof fn lemma_port_line(st: ParseState, v: Seq<char>)
    requires
        clean_text(v),
        v.len() > 0,
        st.cur is Some,
    ensures
        parse_line(st, "    Port "@ + v) == (ParseState {
            cur: Some(HostModel { port: Some(v), ..st.cur->0 }),
            ..st
        }),
{
    reveal_strlit("    Port ");
    reveal_strlit("Port ");
    reveal_strlit("Port");
    reveal_strlit("port");
    reveal_strlit("host");
    reveal_strlit("hostname");
    reveal_strlit("user");
    reveal_strlit("port");
    let line = "    Port "@ + v;
    crate::strutil::lemma_clean_ends(v);
    assert(line.last() == v.last());
    let t0 = line.skip(4);
    assert(t0 =~= "Port "@ + v);
    assert(trim(line) == t0) by {
        crate::strutil::lemma_trim_front_skip(line, 4);
        crate::strutil::lemma_trim_front_id(t0);
        crate::strutil::lemma_trim_back_id(t0);
    }
    let t = t0;
    assert(find_space(t) == 4) by {
        assert(crate::strutil::is_space(t[4]));
        assert(forall|j: int| 0 <= j < 4 ==> !crate::strutil::is_space(#[trigger] t[j]));
        crate::strutil::lemma_find_space_at(t, 4);
    }
    assert(lower_seq(t.take(4)) == "port"@) by {
        assert(t.take(4) =~= "Port"@);
        assert(lower_seq("Port"@) =~= "port"@);
    }
    assert("port"@ != "host"@) by {
        assert("port"@[0] == 'p' && "host"@[0] == 'h');
    }
    assert("port"@ != "hostname"@) by {
        assert("port"@.len() == 4 && "hostname"@.len() == 8);
    }
    assert("port"@ != "user"@) by {
        assert("port"@[0] == 'p' && "user"@[0] == 'u');
    }
    assert(trim(t.skip(5)) == v) by {
        assert(t.skip(5) =~= v);
        crate::strutil::lemma_trim_front_id(v);
        crate::strutil::lemma_trim_back_id(v);
    }
    assert(t[0] != '#');
    assert(parse_line(st, line) =~= (ParseState {
        cur: Some(HostModel { port: Some(v), ..st.cur->0 }),
        ..st
    }));
}

/// A rendered IdentityFile line parses back into the host under construction.
proof fn lemma_identity_line(st: ParseState, v: Seq<char>)
    requires
        clean_text(v),
        v.len() > 0,
        st.cur is Some,
    ensures
        parse_line(st, "    IdentityFile "@ + v) == (ParseState {
            cur: Some(HostModel { identity_file: Some(v), ..st.cur->0 }),
            ..st
        }),
{
    reveal_strlit("    IdentityFile ");
    reveal_strlit("IdentityFile ");
    reveal_strlit("IdentityFile");
    reveal_strlit("identityfile");
    reveal_strlit("host");
    reveal_strlit("hostname");
    reveal_strlit("user");
    reveal_strlit("port");
    let line = "    IdentityFile "@ + v;
    crate::strutil::lemma_clean_ends(v);
    assert(line.last() == v.last());
    let t0 = line.skip(4);
    assert(t0 =~= "IdentityFile "@ + v);
    assert(trim(line) == t0) by {
        crate::strutil::lemma_trim_front_skip(line, 4);
        crate::strutil::lemma_trim_front_id(t0);
        crate::strutil::lemma_trim_back_id(t0);
    }
    let t = t0;
    assert(find_space(t) == 12) by {
        assert(crate::strutil::is_space(t[12]));
        assert(forall|j: int| 0 <= j < 12 ==> !crate::strutil::is_space(#[trigger] t[j]));
        crate::strutil::lemma_find_space_at(t, 12);
    }
    assert(lower_seq(t.take(12)) == "identityfile"@) by {
        assert(t.take(12) =~= "IdentityFile"@);
        assert(lower_seq("IdentityFile"@) =~= "identityfile"@);
    }
    assert("identityfile"@ != "host"@ && "identityfile"@ != "hostname"@ && "identityfile"@
        != "user"@ && "identityfile"@ != "port"@) by {
        assert("identityfile"@.len() == 12 && "host"@.len() == 4 && "hostname"@.len() == 8
            && "user"@.len() == 4 && "port"@.len() == 4);
    }
    assert(trim(t.skip(13)) == v) by {
        assert(t.skip(13) =~= v);
        crate::strutil::lemma_trim_front_id(v);
        crate::strutil::lemma_trim_back_id(v);
    }
    assert(t[0] != '#');
    assert(parse_line(st, line) =~= (ParseState {
        cur: Some(HostModel { identity_file: Some(v), ..st.cur->0 }),
        ..st
    }));
}

/// Lowercasing undoes the capitalization of an already lowercase key.
proof fn lemma_lower_cap(k: Seq<char>)
    requires
        k.len() > 0,
        k == lower_seq(k),
    ensures
        lower_seq(cap_seq(k)) == k,
        cap_seq(k).len() == k.len(),
        forall|j: int| 1 <= j < k.len() ==> #[trigger] cap_seq(k)[j] == k[j],
        cap_seq(k)[0] == crate::strutil::upper_char(k[0]),
{
    let ck = cap_seq(k);
    assert forall|j: int| 0 <= j < k.len() implies #[trigger] lower_seq(ck)[j] == k[j] by {
        assert(k[j] == lower_seq(k)[j]);
        assert(lower_seq(k)[j] == crate::strutil::lower_char(k[j]));
        if j == 0 {
            let c = k[0];
            assert(ck[0] == crate::strutil::upper_char(c));
            if 'a' <= c && c <= 'z' {
                assert(crate::strutil::lower_char(crate::strutil::upper_char(c)) == c);
            } else {
                assert(crate::strutil::upper_char(c) == c);
            }
        } else {
            assert(ck[j] == k[j]);
        }
    }
    assert(lower_seq(ck) =~= k);
}

/// A rendered unrecognized option line parses back as an insertion under
/// its lowercase key.
#[verifier::rlimit(60)]
proof fn lemma_option_line(st: ParseState, k: Seq<char>, v: Seq<char>)
    requires
        plain_key(k),
        clean_text(v),
        st.cur is Some,
    ensures
        parse_line(st, "    "@ + cap_seq(k) + " "@ + v) == (ParseState {
            cur: Some(
                HostModel {
                    other_options: opts_insert(st.cur->0.other_options, k, v),
                    ..st.cur->0
                },
            ),
            ..st
        }),
{
    reveal_strlit("    ");
    reveal_strlit(" ");
    reveal_strlit("host");
    reveal_strlit("hostname");
    reveal_strlit("user");
    reveal_strlit("port");
    reveal_strlit("identityfile");
    lemma_lower_cap(k);
    let ck = cap_seq(k);
    let line = "    "@ + ck + " "@ + v;
    assert(forall|j: int| 0 <= j < 4 ==> crate::strutil::is_space(#[trigger] line[j]));
    assert(!crate::strutil::is_space(ck[0]) && ck[0] != '#') by {
        let c = k[0];
        if 'a' <= c && c <= 'z' {
            assert(!crate::strutil::is_space(crate::strutil::upper_char(c)));
            assert(crate::strutil::upper_char(c) != '#');
        } else {
            assert(crate::strutil::upper_char(c) == c);
        }
    }
    assert(forall|j: int| 0 <= j < ck.len() ==> !crate::strutil::is_space(#[trigger] ck[j])) by {
        assert(forall|j: int| 1 <= j < ck.len() ==> #[trigger] ck[j] == k[j]);
    }
    let expect = ParseState {
        cur: Some(
            HostModel { other_options: opts_insert(st.cur->0.other_options, k, v), ..st.cur->0 },
        ),
        ..st
    };
    if v.len() > 0 {
        crate::strutil::lemma_clean_ends(v);
        let t0 = line.skip(4);
        assert(t0 =~= ck + " "@ + v);
        assert(trim(line) == t0) by {
            crate::strutil::lemma_trim_front_skip(line, 4);
            crate::strutil::lemma_trim_front_id(t0);
            assert(t0.last() == v.last());
            crate::strutil::lemma_trim_back_id(t0);
        }
        let t = t0;
        assert(find_space(t) == k.len()) by {
            assert(crate::strutil::is_space(t[k.len() as int]));
            assert(forall|j: int| 0 <= j < k.len() ==> !crate::strutil::is_space(
                #[trigger] t[j],
            ));
            crate::strutil::lemma_find_space_at(t, k.len() as int);
        }
        assert(lower_seq(t.take(k.len() as int)) == k) by {
            assert(t.take(k.len() as int) =~= ck);
        }
        assert(trim(t.skip(k.len() as int + 1)) == v) by {
            assert(t.skip(k.len() as int + 1) =~= v);
            crate::strutil::lemma_trim_front_id(v);
            crate::strutil::lemma_trim_back_id(v);
        }
        assert(t[0] != '#');
        assert(parse_line(st, line) =~= expect);
    } else {
        assert(line =~= "    "@ + ck + " "@);
        let t1 = ck + " "@;
        assert(trim(line) == ck) by {
            crate::strutil::lemma_trim_front_skip(line, 4);
            assert(line.skip(4) =~= t1);
            crate::strutil::lemma_trim_front_id(t1);
            crate::strutil::lemma_trim_back_take(t1, ck.len() as int);
            assert(t1.take(ck.len() as int) =~= ck);
            assert(ck.last() == if ck.len() == 1 {
                crate::strutil::upper_char(k[0])
            } else {
                k[k.len() - 1]
            });
            crate::strutil::lemma_trim_back_id(ck);
        }
        let t = ck;
        assert(find_space(t) < 0) by {
            crate::strutil::lemma_find_space_none(t);
        }
        assert(lower_seq(t) == k);
        assert(t[0] != '#');
        assert(v =~= Seq::<char>::empty());
        assert(parse_line(st, line) =~= expect);
    }
}

proof fn lemma_parse_single(st: ParseState, l: Seq<char>)
    ensures
        parse_lines(st, seq![l]) == parse_line(st, l),
{
    assert(seq![l].drop_last() =~= Seq::<Seq<char>>::empty());
    assert(seq![l].last() == l);
    assert(parse_lines(st, Seq::<Seq<char>>::empty()) == st);
}

/// Inserting a fresh key appends.
proof fn lemma_opts_insert_fresh(opts: Seq<(Seq<char>, Seq<char>)>, k: Seq<char>, v: Seq<char>)
    requires
        forall|j: int| 0 <= j < opts.len() ==> (#[trigger] opts[j]).0 != k,
    ensures
        opts_insert(opts, k, v) == opts.push((k, v)),
{
    lemma_opts_insert_skip(opts, k, v, opts.len() as int);
    assert(opts.skip(opts.len() as int).len() == 0);
    assert(opts_insert(opts.skip(opts.len() as int), k, v) =~= seq![(k, v)]);
    assert(opts.take(opts.len() as int) =~= opts);
    assert(opts + seq![(k, v)] =~= opts.push((k, v)));
}

/// The rendered option lines of a block append the options in order.
proof fn lemma_parse_option_block(st: ParseState, opts: Seq<(Seq<char>, Seq<char>)>)
    requires
        st.cur is Some,
        forall|i: int|
            0 <= i < opts.len() ==> plain_key(#[trigger] opts[i].0) && clean_text(opts[i].1),
        forall|i: int, j: int|
            0 <= i < j < opts.len() ==> (#[trigger] opts[i]).0 != (#[trigger] opts[j]).0,
        forall|i: int, j: int|
            0 <= i < st.cur->0.other_options.len() && 0 <= j < opts.len() ==> (
            #[trigger] st.cur->0.other_options[i]).0 != (#[trigger] opts[j]).0,
    ensures
        parse_lines(st, render_option_lines(opts)) == (ParseState {
            cur: Some(
                HostModel {
                    other_options: st.cur->0.other_options + opts,
                    ..st.cur->0
                },
            ),
            ..st
        }),
    decreases opts.len(),
{
    let h = st.cur->0;
    if opts.len() == 0 {
        assert(render_option_lines(opts).len() == 0);
        assert(h.other_options + opts =~= h.other_options);
        assert(st =~= (ParseState {
            cur: Some(HostModel { other_options: h.other_options + opts, ..h }),
            ..st
        }));
    } else {
        let dl = opts.drop_last();
        let (k, v) = opts.last();
        assert(forall|i: int| 0 <= i < dl.len() ==> #[trigger] dl[i] == opts[i]);
        lemma_parse_option_block(st, dl);
        let st1 = parse_lines(st, render_option_lines(dl));
        let mid = h.other_options + dl;
        assert(st1.cur->0.other_options == mid);
        lemma_parse_lines_append(st, render_option_lines(dl), seq![
            "    "@ + cap_seq(k) + " "@ + v,
        ]);
        assert(render_option_lines(opts) =~= render_option_lines(dl) + seq![
            "    "@ + cap_seq(k) + " "@ + v,
        ]);
        lemma_parse_single(st1, "    "@ + cap_seq(k) + " "@ + v);
        assert(plain_key(k) && clean_text(v)) by {
            assert(opts[opts.len() - 1] == opts.last());
        }
        lemma_option_line(st1, k, v);
        assert(forall|i: int| 0 <= i < mid.len() ==> (#[trigger] mid[i]).0 != k) by {
            assert(forall|i: int|
                0 <= i < h.other_options.len() ==> (#[trigger] h.other_options[i]).0
                    == mid[i].0);
            assert(forall|i: int| 0 <= i < dl.len() ==> (#[trigger] dl[i]).0 == mid[
                h.other_options.len() + i].0);
            assert(forall|i: int|
                0 <= i < opts.len() - 1 ==> (#[trigger] opts[i]).0 != opts[opts.len() - 1].0);
        }
        lemma_opts_insert_fresh(mid, k, v);
        assert(mid.push((k, v)) =~= h.other_options + opts);
        assert(parse_lines(st, render_option_lines(opts)) =~= (ParseState {
            cur: Some(HostModel { other_options: h.other_options + opts, ..h }),
            ..st
        }));
    }
}

/// One host's rendered lines, fed to the parser with no metadata waiting,
/// flush the previous host and leave this one under construction.
#[verifier::rlimit(100)]
proof fn lemma_parse_host_block(st: ParseState, h: HostModel)
    requires
        writable_host(h),
        st.meta_folder is None,
        st.meta_name is None,
        st.meta_desc is None,
        st.meta_visible is None,
    ensures
        parse_lines(st, host_lines(h)) == (ParseState {
            done: flush(st).done,
            cur: Some(h),
            meta_folder: None,
            meta_name: None,
            meta_desc: None,
            meta_visible: None,
        }),
{
    let m1 = opt_field_line("# @folder: "@, h.folder);
    let m2 = opt_field_line("# @name: "@, h.display_name);
    let m3 = opt_field_line("# @description: "@, h.description);
    let m4: Seq<Seq<char>> = if h.visible {
        Seq::<Seq<char>>::empty()
    } else {
        seq!["# @visible: false"@]
    };
    let hd = seq!["Host "@ + h.name];
    let f1 = opt_field_line("    HostName "@, h.hostname);
    let f2 = opt_field_line("    User "@, h.user);
    let f3 = opt_field_line("    Port "@, h.port);
    let f4 = opt_field_line("    IdentityFile "@, h.identity_file);
    let ol = render_option_lines(h.other_options);
    let bl = seq![Seq::<char>::empty()];
    assert(host_lines(h) == m1 + m2 + m3 + m4 + hd + f1 + f2 + f3 + f4 + ol + bl);

    let st1 = ParseState { meta_folder: h.folder, ..st };
    assert(parse_lines(st, m1) == st1) by {
        match h.folder {
            Some(v) => {
                lemma_parse_single(st, "# @folder: "@ + v);
                lemma_folder_line(st, v);
            },
            None => {
                assert(m1.len() == 0);
                assert(st =~= st1);
            },
        }
    }
    let st2 = ParseState { meta_name: h.display_name, ..st1 };
    assert(parse_lines(st1, m2) == st2) by {
        match h.display_name {
            Some(v) => {
                lemma_parse_single(st1, "# @name: "@ + v);
                lemma_name_line(st1, v);
            },
            None => {
                assert(m2.len() == 0);
                assert(st1 =~= st2);
            },
        }
    }
    let st3 = ParseState { meta_desc: h.description, ..st2 };
    assert(parse_lines(st2, m3) == st3) by {
        match h.description {
            Some(v) => {
                lemma_parse_single(st2, "# @description: "@ + v);
                lemma_description_line(st2, v);
            },
            None => {
                assert(m3.len() == 0);
                assert(st2 =~= st3);
            },
        }
    }
    let st4 = ParseState {
        meta_visible: if h.visible {
            None
        } else {
            Some(false)
        },
        ..st3
    };
    assert(parse_lines(st3, m4) == st4) by {
        if h.visible {
            assert(m4.len() == 0);
            assert(st3 =~= st4);
        } else {
            lemma_parse_single(st3, "# @visible: false"@);
            lemma_visible_line(st3);
        }
    }
    let h0 = new_host_with_meta(st4, h.name);
    let st5 = ParseState {
        done: flush(st4).done,
        cur: Some(h0),
        meta_folder: None,
        meta_name: None,
        meta_desc: None,
        meta_visible: None,
    };
    assert(parse_lines(st4, hd) == st5) by {
        lemma_parse_single(st4, "Host "@ + h.name);
        lemma_host_line(st4, h.name);
    }
    assert(flush(st4).done == flush(st).done);
    let st6 = ParseState { cur: Some(HostModel { hostname: h.hostname, ..h0 }), ..st5 };
    assert(parse_lines(st5, f1) == st6) by {
        match h.hostname {
            Some(v) => {
                lemma_parse_single(st5, "    HostName "@ + v);
                lemma_hostname_line(st5, v);
            },
            None => {
                assert(f1.len() == 0);
                assert(st5 =~= st6);
            },
        }
    }
    let st7 = ParseState { cur: Some(HostModel { user: h.user, ..st6.cur->0 }), ..st6 };
    assert(parse_lines(st6, f2) == st7) by {
        match h.user {
            Some(v) => {
                lemma_parse_single(st6, "    User "@ + v);
                lemma_user_line(st6, v);
            },
            None => {
                assert(f2.len() == 0);
                assert(st6 =~= st7);
            },
        }
    }
    let st8 = ParseState { cur: Some(HostModel { port: h.port, ..st7.cur->0 }), ..st7 };
    assert(parse_lines(st7, f3) == st8) by {
        match h.port {
            Some(v) => {
                lemma_parse_single(st7, "    Port "@ + v);
                lemma_port_line(st7, v);
            },
            None => {
                assert(f3.len() == 0);
                assert(st7 =~= st8);
            },
        }
    }
    let st9 = ParseState {
        cur: Some(HostModel { identity_file: h.identity_file, ..st8.cur->0 }),
        ..st8
    };
    assert(parse_lines(st8, f4) == st9) by {
        match h.identity_file {
            Some(v) => {
                lemma_parse_single(st8, "    IdentityFile "@ + v);
                lemma_identity_line(st8, v);
            },
            None => {
                assert(f4.len() == 0);
                assert(st8 =~= st9);
            },
        }
    }
    assert(st9.cur->0.other_options =~= Seq::<(Seq<char>, Seq<char>)>::empty());
    let st10 = ParseState {
        cur: Some(HostModel { other_options: h.other_options, ..st9.cur->0 }),
        ..st9
    };
    assert(parse_lines(st9, ol) == st10) by {
        lemma_parse_option_block(st9, h.other_options);
        assert(st9.cur->0.other_options + h.other_options =~= h.other_options);
    }
    assert(st10.cur->0 =~= h);
    assert(parse_lines(st10, bl) == st10) by {
        lemma_parse_single(st10, Seq::<char>::empty());
        assert(trim(Seq::<char>::empty()).len() == 0);
    }
    // chain the segments
    lemma_parse_lines_append(st, m1, m2);
    lemma_parse_lines_append(st, m1 + m2, m3);
    lemma_parse_lines_append(st, m1 + m2 + m3, m4);
    lemma_parse_lines_append(st, m1 + m2 + m3 + m4, hd);
    lemma_parse_lines_append(st, m1 + m2 + m3 + m4 + hd, f1);
    lemma_parse_lines_append(st, m1 + m2 + m3 + m4 + hd + f1, f2);
    lemma_parse_lines_append(st, m1 + m2 + m3 + m4 + hd + f1 + f2, f3);
    lemma_parse_lines_append(st, m1 + m2 + m3 + m4 + hd + f1 + f2 + f3, f4);
    lemma_parse_lines_append(st, m1 + m2 + m3 + m4 + hd + f1 + f2 + f3 + f4, ol);
    lemma_parse_lines_append(st, m1 + m2 + m3 + m4 + hd + f1 + f2 + f3 + f4 + ol, bl);
    assert(parse_lines(st, host_lines(h)) =~= (ParseState {
        done: flush(st).done,
        cur: Some(h),
        meta_folder: None,
        meta_name: None,
        meta_desc: None,
        meta_visible: None,
    }));
}

/// No rendered line of a writable host contains a newline.
#[verifier::rlimit(100)]
proof fn lemma_host_lines_clean(h: HostModel)
    requires
        writable_host(h),
    ensures
        forall|i: int, j: int|
            0 <= i < host_lines(h).len() && 0 <= j < host_lines(h)[i].len()
                ==> #[trigger] host_lines(h)[i][j] != '\n',
{
    reveal_strlit("# @folder: ");
    reveal_strlit("# @name: ");
    reveal_strlit("# @description: ");
    reveal_strlit("# @visible: false");
    reveal_strlit("Host ");
    reveal_strlit("    HostName ");
    reveal_strlit("    User ");
    reveal_strlit("    Port ");
    reveal_strlit("    IdentityFile ");
    reveal_strlit("    ");
    reveal_strlit(" ");
    let ls = host_lines(h);
    assert forall|i: int, j: int|
        0 <= i < ls.len() && 0 <= j < ls[i].len() implies #[trigger] ls[i][j] != '\n' by {
        let m1 = opt_field_line("# @folder: "@, h.folder);
        let m2 = opt_field_line("# @name: "@, h.display_name);
        let m3 = opt_field_line("# @description: "@, h.description);
        let m4: Seq<Seq<char>> = if h.visible {
            Seq::<Seq<char>>::empty()
        } else {
            seq!["# @visible: false"@]
        };
        let hd = seq!["Host "@ + h.name];
        let f1 = opt_field_line("    HostName "@, h.hostname);
        let f2 = opt_field_line("    User "@, h.user);
        let f3 = opt_field_line("    Port "@, h.port);
        let f4 = opt_field_line("    IdentityFile "@, h.identity_file);
        let ol = render_option_lines(h.other_options);
        let bl = seq![Seq::<char>::empty()];
        assert(ls == m1 + m2 + m3 + m4 + hd + f1 + f2 + f3 + f4 + ol + bl);
        let pre = m1 + m2 + m3 + m4 + hd + f1 + f2 + f3 + f4;
        if i < pre.len() {
            // one of at most nine label+value lines
            assert(forall|q: int| 0 <= q < "# @folder: "@.len() ==> "# @folder: "@[q] != '\n');
            assert(forall|q: int| 0 <= q < "# @name: "@.len() ==> "# @name: "@[q] != '\n');
            assert(forall|q: int|
                0 <= q < "# @description: "@.len() ==> "# @description: "@[q] != '\n');
            assert(forall|q: int|
                0 <= q < "# @visible: false"@.len() ==> "# @visible: false"@[q] != '\n');
            assert(forall|q: int| 0 <= q < "Host "@.len() ==> "Host "@[q] != '\n');
            assert(forall|q: int|
                0 <= q < "    HostName "@.len() ==> "    HostName "@[q] != '\n');
            assert(forall|q: int| 0 <= q < "    User "@.len() ==> "    User "@[q] != '\n');
            assert(forall|q: int| 0 <= q < "    Port "@.len() ==> "    Port "@[q] != '\n');
            assert(forall|q: int|
                0 <= q < "    IdentityFile "@.len() ==> "    IdentityFile "@[q] != '\n');
        } else if i < pre.len() + ol.len() {
            lemma_option_lines_clean(h.other_options);
            assert(ls[i] == ol[i - pre.len()]);
        } else {
            assert(ls[i] == Seq::<char>::empty());
        }
    }
}

/// No rendered option line contains a newline.
proof fn lemma_option_lines_clean(opts: Seq<(Seq<char>, Seq<char>)>)
    requires
        forall|i: int|
            0 <= i < opts.len() ==> plain_key(#[trigger] opts[i].0) && clean_text(opts[i].1),
    ensures
        forall|i: int, j: int|
            0 <= i < render_option_lines(opts).len() && 0 <= j < render_option_lines(opts)[i].len()
                ==> #[trigger] render_option_lines(opts)[i][j] != '\n',
    decreases opts.len(),
{
    reveal_strlit("    ");
    reveal_strlit(" ");
    if opts.len() > 0 {
        let dl = opts.drop_last();
        assert(forall|i: int| 0 <= i < dl.len() ==> #[trigger] dl[i] == opts[i]);
        lemma_option_lines_clean(dl);
        let (k, v) = opts.last();
        let line = "    "@ + cap_seq(k) + " "@ + v;
        assert(plain_key(k) && clean_text(v)) by {
            assert(opts[opts.len() - 1] == opts.last());
        }
        assert(forall|j: int| 0 <= j < line.len() ==> #[trigger] line[j] != '\n') by {
            assert(forall|q: int| 0 <= q < "    "@.len() ==> "    "@[q] != '\n');
            assert(forall|q: int| 0 <= q < " "@.len() ==> " "@[q] != '\n');
            assert(forall|q: int| 0 <= q < cap_seq(k).len() ==> #[trigger] cap_seq(k)[q]
                != '\n') by {
                let c = k[0];
                if 'a' <= c && c <= 'z' {
                    assert(crate::strutil::upper_char(c) != '\n');
                } else {
                    assert(crate::strutil::upper_char(c) == c);
                }
                assert(forall|q: int| 1 <= q < k.len() ==> #[trigger] cap_seq(k)[q] == k[q]);
            }
        }
        assert(render_option_lines(opts) == render_option_lines(dl) + seq![line]);
    }
}

/// Feeding every block to the parser leaves the last host under
/// construction and the rest finished.
proof fn lemma_parse_blocks(hosts: Seq<HostModel>)
    requires
        forall|i: int| 0 <= i < hosts.len() ==> writable_host(#[trigger] hosts[i]),
    ensures
        hosts.len() == 0 ==> parse_lines(init_state(), all_lines(hosts)) == init_state(),
        hosts.len() > 0 ==> parse_lines(init_state(), all_lines(hosts)) == (ParseState {
            done: hosts.drop_last(),
            cur: Some(hosts.last()),
            meta_folder: None,
            meta_name: None,
            meta_desc: None,
            meta_visible: None,
        }),
    decreases hosts.len(),
{
    if hosts.len() > 0 {
        let dl = hosts.drop_last();
        assert(forall|i: int| 0 <= i < dl.len() ==> #[trigger] dl[i] == hosts[i]);
        lemma_parse_blocks(dl);
        lemma_parse_lines_append(init_state(), all_lines(dl), host_lines(hosts.last()));
        let st = parse_lines(init_state(), all_lines(dl));
        assert(hosts[hosts.len() - 1] == hosts.last());
        lemma_parse_host_block(st, hosts.last());
        if dl.len() == 0 {
            assert(flush(st).done =~= dl);
        } else {
            assert(flush(st).done =~= dl.drop_last().push(dl.last()));
            assert(dl.drop_last().push(dl.last()) =~= dl);
        }
    }
}

/// Writing a list of well-formed hosts and reading the text back yields
/// the same list: the on-disk format loses nothing.
pub proof fn lemma_write_read_round_trip(hosts: Seq<HostModel>)
    requires
        forall|i: int| 0 <= i < hosts.len() ==> writable_host(#[trigger] hosts[i]),
    ensures
        parse_spec(render_spec(hosts)) == hosts,
{
    let ls = all_lines(hosts);
    assert(forall|i: int, j: int|
        0 <= i < ls.len() && 0 <= j < ls[i].len() ==> #[trigger] ls[i][j] != '\n') by {
        lemma_all_lines_clean(hosts);
    }
    lemma_split_join(ls);
    lemma_parse_lines_append(init_state(), ls, seq![Seq::<char>::empty()]);
    lemma_parse_blocks(hosts);
    let st = parse_lines(init_state(), ls);
    lemma_parse_single(st, Seq::<char>::empty());
    assert(parse_line(st, Seq::<char>::empty()) == st) by {
        assert(trim(Seq::<char>::empty()).len() == 0);
    }
    assert(split_lines(render_spec(hosts)) == ls + seq![Seq::<char>::empty()]);
    if hosts.len() == 0 {
        assert(parse_spec(render_spec(hosts)) =~= hosts);
    } else {
        assert(flush(st).done =~= hosts.drop_last().push(hosts.last()));
        assert(hosts.drop_last().push(hosts.last()) =~= hosts);
    }
}

proof fn lemma_all_lines_clean(hosts: Seq<HostModel>)
    requires
        forall|i: int| 0 <= i < hosts.len() ==> writable_host(#[trigger] hosts[i]),
    ensures
        forall|i: int, j: int|
            0 <= i < all_lines(hosts).len() && 0 <= j < all_lines(hosts)[i].len()
                ==> #[trigger] all_lines(hosts)[i][j] != '\n',
    decreases hosts.len(),
{
    if hosts.len() > 0 {
        let dl = hosts.drop_last();
        assert(forall|i: int| 0 <= i < dl.len() ==> #[trigger] dl[i] == hosts[i]);
        lemma_all_lines_clean(dl);
        assert(hosts[hosts.len() - 1] == hosts.last());
        lemma_host_lines_clean(hosts.last());
        let a = all_lines(dl);
        let b = host_lines(hosts.last());
        assert(all_lines(hosts) == a + b);
        assert forall|i: int, j: int|
            0 <= i < all_lines(hosts).len() && 0 <= j < all_lines(hosts)[i].len() implies
            #[trigger] all_lines(hosts)[i][j] != '\n' by {
            if i < a.len() {
                assert(all_lines(hosts)[i] == a[i]);
            } else {
                assert(all_lines(hosts)[i] == b[i - a.len()]);
            }
        }
    }
}

} // verus!
