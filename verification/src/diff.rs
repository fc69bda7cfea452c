use vstd::prelude::*;
use vstd::string::StringExecFns;

use crate::controller::ChangeModel;
use crate::controller::ChangeType;
use crate::host::HostModel;
use crate::host::SshHost;
use crate::strutil::upper_char;
use crate::strutil::upper_char_exec;
use vstd::string::StrSliceExecFns;

verus! {

// ---------------------------------------------------------------------------
// The diff the review screen shows: one line list derived from the staged
// changes, specified line by line.
// ---------------------------------------------------------------------------

/// A key with its first character raised to upper case.
pub open spec fn cap_seq(k: Seq<char>) -> Seq<char> {
    if k.len() == 0 {
        k
    } else {
        seq![upper_char(k[0])] + k.drop_first()
    }
}

pub open spec fn bool_seq(b: bool) -> Seq<char> {
    if b {
        "true"@
    } else {
        "false"@
    }
}

/// One line when the field is present, nothing otherwise.
pub open spec fn opt_line(label: Seq<char>, o: Option<Seq<char>>) -> Seq<Seq<char>> {
    match o {
        Some(v) => seq![label + v],
        None => Seq::<Seq<char>>::empty(),
    }
}

/// The metadata comment lines of a host under the given diff sign.
pub open spec fn sign_meta_lines(sign: Seq<char>, h: HostModel) -> Seq<Seq<char>> {
    opt_line(sign + " # @folder: "@, h.folder) + opt_line(sign + " # @name: "@, h.display_name)
        + opt_line(sign + " # @description: "@, h.description) + (if h.visible {
        Seq::<Seq<char>>::empty()
    } else {
        seq![sign + " # @visible: false"@]
    })
}

/// One line per unrecognized option, its key capitalized.
pub open spec fn option_lines(sign: Seq<char>, opts: Seq<(Seq<char>, Seq<char>)>) -> Seq<
    Seq<char>,
>
    decreases opts.len(),
{
    if opts.len() == 0 {
        Seq::<Seq<char>>::empty()
    } else {
        option_lines(sign, opts.drop_last()) + seq![
            sign + "   "@ + cap_seq(opts.last().0) + " "@ + opts.last().1,
        ]
    }
}

/// Every line an added or deleted host contributes: metadata comments,
/// the Host header, each present field, each unrecognized option, and a
/// blank separator.
pub open spec fn host_block(sign: Seq<char>, h: HostModel) -> Seq<Seq<char>> {
    sign_meta_lines(sign, h) + seq![sign + " Host "@ + h.name] + opt_line(
        sign + "   HostName "@,
        h.hostname,
    ) + opt_line(sign + "   User "@, h.user) + opt_line(sign + "   Port "@, h.port) + opt_line(
        sign + "   IdentityFile "@,
        h.identity_file,
    ) + option_lines(sign, h.other_options) + seq![Seq::<char>::empty()]
}

/// An old/new pair of lines when the field differs, nothing otherwise.
pub open spec fn pair_lines(
    minus_label: Seq<char>,
    plus_label: Seq<char>,
    o: Option<Seq<char>>,
    n: Option<Seq<char>>,
) -> Seq<Seq<char>> {
    if o == n {
        Seq::<Seq<char>>::empty()
    } else {
        opt_line(minus_label, o) + opt_line(plus_label, n)
    }
}

/// The lines of a modification: a header naming the old host, then only
/// the fields that differ, each as an old/new pair, and a blank separator.
pub open spec fn modified_block(o: HostModel, n: HostModel) -> Seq<Seq<char>> {
    seq!["~ Host "@ + o.name] + pair_lines("- # @folder: "@, "+ # @folder: "@, o.folder, n.folder)
        + pair_lines("- # @name: "@, "+ # @name: "@, o.display_name, n.display_name) + pair_lines(
        "- # @description: "@,
        "+ # @description: "@,
        o.description,
        n.description,
    ) + (if o.visible == n.visible {
        Seq::<Seq<char>>::empty()
    } else {
        seq!["- # @visible: "@ + bool_seq(o.visible), "+ # @visible: "@ + bool_seq(n.visible)]
    }) + pair_lines("-   HostName "@, "+   HostName "@, o.hostname, n.hostname) + pair_lines(
        "-   User "@,
        "+   User "@,
        o.user,
        n.user,
    ) + pair_lines("-   Port "@, "+   Port "@, o.port, n.port) + pair_lines(
        "-   IdentityFile "@,
        "+   IdentityFile "@,
        o.identity_file,
        n.identity_file,
    ) + seq![Seq::<char>::empty()]
}

pub open spec fn change_block(c: ChangeModel) -> Seq<Seq<char>> {
    match c {
        ChangeModel::Added(h) => host_block("+"@, h),
        ChangeModel::Modified { old, new } => modified_block(old, new),
        ChangeModel::Deleted(h) => host_block("-"@, h),
    }
}

/// The whole diff: the blocks of the staged changes in order.
pub open spec fn diff_spec(cs: Seq<ChangeModel>) -> Seq<Seq<char>>
    decreases cs.len(),
{
    if cs.len() == 0 {
        Seq::<Seq<char>>::empty()
    } else {
        diff_spec(cs.drop_last()) + change_block(cs.last())
    }
}

// ---------------------------------------------------------------------------
// Executable rendering.
// ---------------------------------------------------------------------------

/// Appends one line.
fn push_line(lines: &mut Vec<String>, line: String)
    ensures
        final(lines).deep_view() == old(lines).deep_view() + seq![line@],
{
    let ghost prev = lines.deep_view();
    lines.push(line);
    proof {
        assert(lines.deep_view() =~= prev + seq![line@]);
    }
}

fn line2(a: &str, b: &str) -> (r: String)
    ensures
        r@ == a@ + b@,
{
    let mut s = String::from_str(a);
    s.append(b);
    s
}

fn line3(a: &str, b: &str, c: &str) -> (r: String)
    ensures
        r@ == a@ + b@ + c@,
{
    let mut s = String::from_str(a);
    s.append(b);
    s.append(c);
    s
}

/// The key with its first character raised to upper case.
fn capitalize(k: &str) -> (r: String)
    ensures
        r@ == cap_seq(k@),
{
    let len: usize = k.unicode_len();
    if len == 0 {
        let r = String::new();
        proof {
            assert(r@ =~= cap_seq(k@));
        }
        r
    } else {
        let mut s = String::new();
        crate::strutil::push_char(&mut s, upper_char_exec(k.get_char(0)));
        let rest = k.substring_char(1, len);
        s.append(rest);
        proof {
            assert(s@ =~= cap_seq(k@)) by {
                assert(rest@ =~= k@.drop_first());
                assert(s@ =~= seq![upper_char(k@[0])] + k@.drop_first());
            }
        }
        s
    }
}

/// Appends the line for an optional field, when it is present.
fn push_opt_line(lines: &mut Vec<String>, label: &str, o: &Option<String>)
    ensures
        final(lines).deep_view() == old(lines).deep_view() + opt_line(
            label@,
            crate::host::opt_view(*o),
        ),
{
    let ghost prev = lines.deep_view();
    match o {
        Some(v) => {
            push_line(lines, line2(label, v.as_str()));
            proof {
                assert(lines.deep_view() =~= prev + opt_line(label@, crate::host::opt_view(*o)));
            }
        },
        None => {
            proof {
                assert(lines.deep_view() =~= prev + opt_line(label@, crate::host::opt_view(*o)));
            }
        },
    }
}

/// Appends the metadata comment lines of a host.
fn push_meta_lines(lines: &mut Vec<String>, sign: &str, h: &SshHost)
    ensures
        final(lines).deep_view() == old(lines).deep_view() + sign_meta_lines(sign@, h@),
{
    let ghost base = lines.deep_view();
    push_opt_line(lines, line2(sign, " # @folder: ").as_str(), &h.folder);
    push_opt_line(lines, line2(sign, " # @name: ").as_str(), &h.display_name);
    push_opt_line(lines, line2(sign, " # @description: ").as_str(), &h.description);
    if !h.visible {
        push_line(lines, line2(sign, " # @visible: false"));
    }
    proof {
        assert(lines.deep_view() =~= base + sign_meta_lines(sign@, h@));
    }
}

/// Appends one line per unrecognized option.
fn push_option_lines(lines: &mut Vec<String>, sign: &str, opts: &Vec<(String, String)>)
    ensures
        final(lines).deep_view() == old(lines).deep_view() + option_lines(
            sign@,
            opts.deep_view(),
        ),
{
    let ghost base = lines.deep_view();
    let mut i: usize = 0;
    proof {
        assert(base + option_lines(sign@, opts.deep_view().take(0)) =~= base);
    }
    while i < opts.len()
        invariant
            0 <= i <= opts@.len(),
            lines.deep_view() == base + option_lines(sign@, opts.deep_view().take(i as int)),
        decreases opts@.len() - i,
    {
        let key_cap = capitalize(opts[i].0.as_str());
        let mut line = String::from_str(sign);
        line.append("   ");
        line.append(key_cap.as_str());
        line.append(" ");
        line.append(opts[i].1.as_str());
        push_line(lines, line);
        proof {
            let om = opts.deep_view();
            assert(om.take(i + 1).drop_last() =~= om.take(i as int));
            assert(om.take(i + 1).last() == om[i as int]);
            assert(om[i as int] == opts@[i as int].deep_view());
            assert(lines.deep_view() =~= base + option_lines(sign@, om.take(i + 1)));
        }
        i = i + 1;
    }
    proof {
        assert(opts.deep_view().take(opts@.len() as int) =~= opts.deep_view());
    }
}

/// Appends the full block of an added or deleted host.
#[verifier::rlimit(100)]
fn push_host_block(lines: &mut Vec<String>, sign: &str, h: &SshHost)
    ensures
        final(lines).deep_view() == old(lines).deep_view() + host_block(sign@, h@),
{
    let ghost base = lines.deep_view();
    push_meta_lines(lines, sign, h);
    push_line(lines, line3(sign, " Host ", h.name.as_str()));
    proof {
        assert(lines.deep_view() =~= base + sign_meta_lines(sign@, h@) + seq![
            sign@ + " Host "@ + h@.name,
        ]);
    }
    push_opt_line(lines, line2(sign, "   HostName ").as_str(), &h.hostname);
    push_opt_line(lines, line2(sign, "   User ").as_str(), &h.user);
    proof {
        assert(lines.deep_view() =~= base + sign_meta_lines(sign@, h@) + seq![
            sign@ + " Host "@ + h@.name,
        ] + opt_line(sign@ + "   HostName "@, h@.hostname) + opt_line(
            sign@ + "   User "@,
            h@.user,
        ));
    }
    push_opt_line(lines, line2(sign, "   Port ").as_str(), &h.port);
    push_opt_line(lines, line2(sign, "   IdentityFile ").as_str(), &h.identity_file);
    push_option_lines(lines, sign, &h.other_options);
    push_line(lines, String::new());
    proof {
        assert(lines.deep_view() =~= base + host_block(sign@, h@));
    }
}

/// Appends an old/new pair of lines when the field differs.
fn push_pair_lines(
    lines: &mut Vec<String>,
    minus_label: &str,
    plus_label: &str,
    o: &Option<String>,
    n: &Option<String>,
)
    ensures
        final(lines).deep_view() == old(lines).deep_view() + pair_lines(
            minus_label@,
            plus_label@,
            crate::host::opt_view(*o),
            crate::host::opt_view(*n),
        ),
{
    let ghost base = lines.deep_view();
    let same = match (o, n) {
        (Some(a), Some(b)) => crate::strutil::str_eq(a.as_str(), b.as_str()),
        (None, None) => true,
        _ => false,
    };
    if !same {
        push_opt_line(lines, minus_label, o);
        push_opt_line(lines, plus_label, n);
        proof {
            assert(lines.deep_view() =~= base + pair_lines(
                minus_label@,
                plus_label@,
                crate::host::opt_view(*o),
                crate::host::opt_view(*n),
            ));
        }
    } else {
        proof {
            assert(crate::host::opt_view(*o) == crate::host::opt_view(*n));
            assert(lines.deep_view() =~= base + pair_lines(
                minus_label@,
                plus_label@,
                crate::host::opt_view(*o),
                crate::host::opt_view(*n),
            ));
        }
    }
}

/// Appends the block of a modification.
#[verifier::rlimit(100)]
fn push_modified_block(lines: &mut Vec<String>, o: &SshHost, n: &SshHost)
    ensures
        final(lines).deep_view() == old(lines).deep_view() + modified_block(o@, n@),
{
    let ghost base = lines.deep_view();
    push_line(lines, line2("~ Host ", o.name.as_str()));
    push_pair_lines(lines, "- # @folder: ", "+ # @folder: ", &o.folder, &n.folder);
    push_pair_lines(lines, "- # @name: ", "+ # @name: ", &o.display_name, &n.display_name);
    push_pair_lines(
        lines,
        "- # @description: ",
        "+ # @description: ",
        &o.description,
        &n.description,
    );
    if o.visible != n.visible {
        push_line(lines, line2("- # @visible: ", if o.visible { "true" } else { "false" }));
        push_line(lines, line2("+ # @visible: ", if n.visible { "true" } else { "false" }));
    }
    push_pair_lines(lines, "-   HostName ", "+   HostName ", &o.hostname, &n.hostname);
    push_pair_lines(lines, "-   User ", "+   User ", &o.user, &n.user);
    push_pair_lines(lines, "-   Port ", "+   Port ", &o.port, &n.port);
    push_pair_lines(
        lines,
        "-   IdentityFile ",
        "+   IdentityFile ",
        &o.identity_file,
        &n.identity_file,
    );
    push_line(lines, String::new());
    proof {
        assert(lines.deep_view() =~= base + modified_block(o@, n@));
    }
}

/// Renders the staged changes as the review diff, line by line.
pub fn diff_lines(changes: &Vec<ChangeType>) -> (r: Vec<String>)
    ensures
        r.deep_view() == diff_spec(changes.deep_view()),
{
    let ghost cs = changes.deep_view();
    let mut lines: Vec<String> = Vec::new();
    let mut i: usize = 0;
    proof {
        assert(lines.deep_view() =~= diff_spec(cs.take(0)));
    }
    while i < changes.len()
        invariant
            0 <= i <= changes@.len(),
            cs == changes.deep_view(),
            lines.deep_view() == diff_spec(cs.take(i as int)),
        decreases changes@.len() - i,
    {
        let ghost before = lines.deep_view();
        match &changes[i] {
            ChangeType::Added(h) => {
                push_host_block(&mut lines, "+", h);
            },
            ChangeType::Modified { old, new } => {
                push_modified_block(&mut lines, old, new);
            },
            ChangeType::Deleted(h) => {
                push_host_block(&mut lines, "-", h);
            },
        }
        proof {
            assert(cs[i as int] == changes@[i as int].deep_view());
            assert(lines.deep_view() =~= before + change_block(cs[i as int]));
            assert(cs.take(i + 1).drop_last() =~= cs.take(i as int));
            assert(cs.take(i + 1).last() == cs[i as int]);
            assert(lines.deep_view() =~= diff_spec(cs.take(i + 1)));
        }
        i = i + 1;
    }
    proof {
        assert(cs.take(cs.len() as int) =~= cs);
    }
    lines
}

} // verus!
