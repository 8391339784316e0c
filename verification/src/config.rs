//! Rewriting of the configuration files that the deployer edits line by
//! line: the sync address in the Anki add-on's `config.json`, and the TLS
//! settings in the server's `Settings.toml`.
use vstd::prelude::*;
use vstd::string::*;
use crate::text::{
    append_chars, chars_of, concat, contains, contains_chars, lemma_concat_lacks,
    lemma_lines_no_newline, lemma_lines_unlines, lemma_not_contains_quoted, lines, occurs_at,
    split_lines, strip_cr, unlines, views,
};

verus! {

/// The line that replaces a line naming `syncaddr`, for the address `ipaddr`.
pub open spec fn syncaddr_entry(ipaddr: Seq<char>) -> Seq<char> {
    "\"syncaddr\":\"https://"@ + ipaddr + ":27701/\""@
}

/// A line of `config.json` after the address is set: a line that contains
/// `syncaddr` becomes the entry for `ipaddr`, any other line stays.
pub open spec fn syncaddr_line(line: Seq<char>, ipaddr: Seq<char>) -> Seq<char> {
    if contains(line, "syncaddr"@) {
        syncaddr_entry(ipaddr)
    } else {
        line
    }
}

/// The new content of `config.json`: its lines, each rewritten by
/// `syncaddr_line` and followed by a line break.
pub open spec fn syncaddr_config_spec(content: Seq<char>, ipaddr: Seq<char>) -> Seq<char> {
    concat(lines(content).map_values(|l: Seq<char>| syncaddr_line(l, ipaddr) + seq!['\n']))
}

/// Appends all of `v` to `s`.
fn append_all(s: &mut String, v: &Vec<char>)
    ensures
        final(s)@ == old(s)@ + v@,
{
    append_chars(s, v, 0, v.len());
    assert(v@.subrange(0, v@.len() as int) =~= v@);
}

/// The content of the add-on's `config.json` with its sync address set to
/// `ipaddr`, as the deployer writes it back.
pub fn syncaddr_config(content: &str, ipaddr: &str) -> (r: String)
    ensures
        r@ == syncaddr_config_spec(content@, ipaddr@),
        r@ == unlines(
            Seq::new(
                lines(content@).len(),
                |i: int|
                    if contains(lines(content@)[i], "syncaddr"@) {
                        "\"syncaddr\":\"https://"@ + ipaddr@ + ":27701/\""@
                    } else {
                        lines(content@)[i]
                    },
            ),
        ),
{
    proof {
        lemma_syncaddr_config_lines(content@, ipaddr@);
    }
    let v = chars_of(content);
    let ls = split_lines(&v);
    let pat = chars_of("syncaddr");
    let ghost f = |l: Seq<char>| syncaddr_line(l, ipaddr@) + seq!['\n'];
    let mut out = String::new();
    let mut i: usize = 0;
    assert(views(ls@).take(0).map_values(f) =~= Seq::<Seq<char>>::empty());
    while i < ls.len()
        invariant
            i <= ls@.len(),
            pat@ == "syncaddr"@,
            views(ls@) == lines(content@),
            f == (|l: Seq<char>| syncaddr_line(l, ipaddr@) + seq!['\n']),
            out@ == concat(views(ls@).take(i as int).map_values(f)),
        decreases ls@.len() - i,
    {
        let ghost before = out@;
        let line = &ls[i];
        assert(views(ls@)[i as int] == line@);
        if contains_chars(line, &pat) {
            out.append("\"syncaddr\":\"https://");
            out.append(ipaddr);
            out.append(":27701/\"");
        } else {
            append_all(&mut out, line);
        }
        out.append("\n");
        proof {
            reveal_strlit("\n");
        }
        assert(out@ =~= before + f(line@));
        let ghost next = views(ls@).take(i + 1).map_values(f);
        assert(next.drop_last() =~= views(ls@).take(i as int).map_values(f));
        assert(next.last() == f(line@));
        i = i + 1;
    }
    assert(views(ls@).take(ls@.len() as int) =~= views(ls@));
    out
}

/// Reading back the rewritten `config.json` gives the rewritten lines, and
/// the entry still names `syncaddr`.
proof fn lemma_syncaddr_reread(content: Seq<char>, ipaddr: Seq<char>)
    requires
        !ipaddr.contains('\n'),
        forall|i: int|
            0 <= i < lines(content).len() && !contains(#[trigger] lines(content)[i], "syncaddr"@)
                ==> !(lines(content)[i].len() > 0 && lines(content)[i].last() == '\r'),
    ensures
        contains(syncaddr_entry(ipaddr), "syncaddr"@),
        lines(syncaddr_config_spec(content, ipaddr)) == lines(content).map_values(
            |l: Seq<char>| syncaddr_line(l, ipaddr),
        ),
{
    reveal_strlit("\"syncaddr\":\"https://");
    reveal_strlit(":27701/\"");
    reveal_strlit("syncaddr");
    let a = "\"syncaddr\":\"https://"@;
    let b = ":27701/\""@;
    let e = syncaddr_entry(ipaddr);
    assert(a.subrange(1, 9) =~= "syncaddr"@);
    assert(occurs_at(a, "syncaddr"@, 1));
    lemma_contains_prefix(a, ipaddr + b, "syncaddr"@);
    assert(a + (ipaddr + b) =~= e);
    assert(!a.contains('\n'));
    assert(!b.contains('\n'));
    lemma_concat_lacks(a, ipaddr, '\n');
    lemma_concat_lacks(a + ipaddr, b, '\n');
    assert(e.last() == '"');
    lemma_lines_no_newline(content);
    let ls = lines(content);
    let out = ls.map_values(|l: Seq<char>| syncaddr_line(l, ipaddr));
    let once = syncaddr_config_spec(content, ipaddr);
    assert(ls.map_values(|l: Seq<char>| syncaddr_line(l, ipaddr) + seq!['\n']) =~= out.map_values(
        |l: Seq<char>| l + seq!['\n'],
    ));
    assert(once == unlines(out));
    assert forall|i: int| 0 <= i < out.len() implies !(#[trigger] out[i]).contains('\n') by {
        assert(!ls[i].contains('\n'));
    }
    lemma_lines_unlines(out);
    assert(lines(once) =~= out) by {
        assert forall|i: int| 0 <= i < out.len() implies strip_cr(out[i]) == out[i] by {
            if !contains(ls[i], "syncaddr"@) {
                assert(!contains(lines(content)[i], "syncaddr"@));
            }
        }
    }
}

/// Setting the sync address keeps every line of `config.json` in order,
/// each followed by a line break, and turns each line that names
/// `syncaddr`, whatever address it held, into
/// `"syncaddr":"https://<ipaddr>:27701/"`; every other line stays as it is.
pub proof fn lemma_syncaddr_config_lines(content: Seq<char>, ipaddr: Seq<char>)
    ensures
        syncaddr_config_spec(content, ipaddr) == unlines(
            Seq::new(
                lines(content).len(),
                |i: int|
                    if contains(lines(content)[i], "syncaddr"@) {
                        "\"syncaddr\":\"https://"@ + ipaddr + ":27701/\""@
                    } else {
                        lines(content)[i]
                    },
            ),
        ),
{
    let ls = lines(content);
    let expected = Seq::new(
        ls.len(),
        |i: int|
            if contains(ls[i], "syncaddr"@) {
                "\"syncaddr\":\"https://"@ + ipaddr + ":27701/\""@
            } else {
                ls[i]
            },
    );
    assert(ls.map_values(|l: Seq<char>| syncaddr_line(l, ipaddr) + seq!['\n']) =~= expected.map_values(
        |l: Seq<char>| l + seq!['\n'],
    ));
}

/// Setting the address `a` and then the address `b` gives what setting `b`
/// alone gives: the lines naming `syncaddr` end up with `b` whatever they
/// held. It holds when `a` holds no line break and no line left as it
/// stands ends in a carriage return (which reading the file back would
/// drop).
pub proof fn lemma_syncaddr_config_readdress(content: Seq<char>, a: Seq<char>, b: Seq<char>)
    requires
        !a.contains('\n'),
        forall|i: int|
            0 <= i < lines(content).len() && !contains(#[trigger] lines(content)[i], "syncaddr"@)
                ==> !(lines(content)[i].len() > 0 && lines(content)[i].last() == '\r'),
    ensures
        syncaddr_config_spec(syncaddr_config_spec(content, a), b) == syncaddr_config_spec(
            content,
            b,
        ),
{
    lemma_syncaddr_reread(content, a);
    let ls = lines(content);
    let out = ls.map_values(|l: Seq<char>| syncaddr_line(l, a));
    assert(out.map_values(|l: Seq<char>| syncaddr_line(l, b) + seq!['\n']) =~= ls.map_values(
        |l: Seq<char>| syncaddr_line(l, b) + seq!['\n'],
    ));
}

/// Setting the sync address twice gives what setting it once gives, when the
/// address holds no line break and no line left as it stands ends in a
/// carriage return (which reading the file back would drop).
pub proof fn lemma_syncaddr_config_idempotent(content: Seq<char>, ipaddr: Seq<char>)
    requires
        !ipaddr.contains('\n'),
        forall|i: int|
            0 <= i < lines(content).len() && !contains(#[trigger] lines(content)[i], "syncaddr"@)
                ==> !(lines(content)[i].len() > 0 && lines(content)[i].last() == '\r'),
    ensures
        syncaddr_config_spec(syncaddr_config_spec(content, ipaddr), ipaddr) == syncaddr_config_spec(
            content,
            ipaddr,
        ),
{
    lemma_syncaddr_config_readdress(content, ipaddr, ipaddr);
}

/// The view of an optional text.
pub open spec fn opt_text(o: Option<&str>) -> Option<Seq<char>> {
    match o {
        Some(s) => Some(s@),
        None => None,
    }
}

/// A line of `Settings.toml` after TLS is switched on: a line naming
/// `ssl_enable` turns it on, else a line naming `cert_file` names the
/// certificate `cert`, else a line naming `key_file` names the key `key`;
/// any other line stays.
pub open spec fn ssl_line(line: Seq<char>, cert: Option<Seq<char>>, key: Option<Seq<char>>) -> Seq<
    char,
> {
    if contains(line, "ssl_enable"@) {
        "ssl_enable=true"@
    } else if contains(line, "cert_file"@) {
        "cert_file=\""@ + cert->0 + "\""@
    } else if contains(line, "key_file"@) {
        "key_file=\""@ + key->0 + "\""@
    } else {
        line
    }
}

/// Whether `line` can be rewritten by `ssl_line`: the file it names is known.
pub open spec fn ssl_line_defined(
    line: Seq<char>,
    cert: Option<Seq<char>>,
    key: Option<Seq<char>>,
) -> bool {
    !contains(line, "ssl_enable"@) ==> {
        &&& contains(line, "cert_file"@) ==> cert is Some
        &&& !contains(line, "cert_file"@) && contains(line, "key_file"@) ==> key is Some
    }
}

/// Whether every line of `content` can be rewritten by `ssl_line`.
pub open spec fn ssl_config_defined(
    content: Seq<char>,
    cert: Option<Seq<char>>,
    key: Option<Seq<char>>,
) -> bool {
    forall|i: int| 0 <= i < lines(content).len() ==> #[trigger] ssl_line_defined(lines(content)[i], cert, key)
}

/// The new content of `Settings.toml`: its lines rewritten by `ssl_line`,
/// each followed by a line break.
pub open spec fn ssl_config_spec(
    content: Seq<char>,
    cert: Option<Seq<char>>,
    key: Option<Seq<char>>,
) -> Seq<char> {
    concat(lines(content).map_values(|l: Seq<char>| ssl_line(l, cert, key) + seq!['\n']))
}

/// The content of `Settings.toml` with TLS switched on and the certificate
/// and key files named. A line that needs a file name that is not known is
/// ruled out, as the deployer stops there.
pub fn ssl_config(content: &str, cert: Option<&str>, key: Option<&str>) -> (r: String)
    requires
        ssl_config_defined(content@, opt_text(cert), opt_text(key)),
    ensures
        r@ == ssl_config_spec(content@, opt_text(cert), opt_text(key)),
        r@ == unlines(
            Seq::new(
                lines(content@).len(),
                |i: int|
                    if contains(lines(content@)[i], "ssl_enable"@) {
                        "ssl_enable=true"@
                    } else if contains(lines(content@)[i], "cert_file"@) {
                        "cert_file=\""@ + opt_text(cert)->0 + "\""@
                    } else if contains(lines(content@)[i], "key_file"@) {
                        "key_file=\""@ + opt_text(key)->0 + "\""@
                    } else {
                        lines(content@)[i]
                    },
            ),
        ),
{
    proof {
        lemma_ssl_config_lines(content@, opt_text(cert), opt_text(key));
    }
    let v = chars_of(content);
    let ls = split_lines(&v);
    let ssl_pat = chars_of("ssl_enable");
    let cert_pat = chars_of("cert_file");
    let key_pat = chars_of("key_file");
    let ghost c = opt_text(cert);
    let ghost k = opt_text(key);
    let ghost f = |l: Seq<char>| ssl_line(l, c, k) + seq!['\n'];
    let mut out = String::new();
    let mut i: usize = 0;
    assert(views(ls@).take(0).map_values(f) =~= Seq::<Seq<char>>::empty());
    while i < ls.len()
        invariant
            i <= ls@.len(),
            ssl_pat@ == "ssl_enable"@,
            cert_pat@ == "cert_file"@,
            key_pat@ == "key_file"@,
            c == opt_text(cert),
            k == opt_text(key),
            views(ls@) == lines(content@),
            ssl_config_defined(content@, c, k),
            f == (|l: Seq<char>| ssl_line(l, c, k) + seq!['\n']),
            out@ == concat(views(ls@).take(i as int).map_values(f)),
        decreases ls@.len() - i,
    {
        let ghost before = out@;
        let line = &ls[i];
        assert(views(ls@)[i as int] == line@);
        assert(ssl_line_defined(lines(content@)[i as int], c, k));
        if contains_chars(line, &ssl_pat) {
            out.append("ssl_enable=true");
        } else if contains_chars(line, &cert_pat) {
            out.append("cert_file=\"");
            out.append(cert.unwrap());
            out.append("\"");
        } else if contains_chars(line, &key_pat) {
            out.append("key_file=\"");
            out.append(key.unwrap());
            out.append("\"");
        } else {
            append_all(&mut out, line);
        }
        out.append("\n");
        proof {
            reveal_strlit("\n");
        }
        assert(out@ =~= before + f(line@));
        let ghost next = views(ls@).take(i + 1).map_values(f);
        assert(next.drop_last() =~= views(ls@).take(i as int).map_values(f));
        assert(next.last() == f(line@));
        i = i + 1;
    }
    assert(views(ls@).take(ls@.len() as int) =~= views(ls@));
    out
}

/// Whether every line of `content` can be rewritten by `ssl_line`, that is,
/// whether `ssl_config` may be called.
pub fn ssl_config_is_defined(content: &str, cert: Option<&str>, key: Option<&str>) -> (r: bool)
    ensures
        r == ssl_config_defined(content@, opt_text(cert), opt_text(key)),
{
    let v = chars_of(content);
    let ls = split_lines(&v);
    let ssl_pat = chars_of("ssl_enable");
    let cert_pat = chars_of("cert_file");
    let key_pat = chars_of("key_file");
    let mut i: usize = 0;
    while i < ls.len()
        invariant
            i <= ls@.len(),
            ssl_pat@ == "ssl_enable"@,
            cert_pat@ == "cert_file"@,
            key_pat@ == "key_file"@,
            views(ls@) == lines(content@),
            forall|j: int|
                0 <= j < i ==> #[trigger] ssl_line_defined(
                    lines(content@)[j],
                    opt_text(cert),
                    opt_text(key),
                ),
        decreases ls@.len() - i,
    {
        let line = &ls[i];
        assert(views(ls@)[i as int] == line@);
        if !contains_chars(line, &ssl_pat) {
            let has_cert = contains_chars(line, &cert_pat);
            if has_cert && cert.is_none() {
                assert(!ssl_line_defined(lines(content@)[i as int], opt_text(cert), opt_text(key)));
                return false;
            }
            if !has_cert && contains_chars(line, &key_pat) && key.is_none() {
                assert(!ssl_line_defined(lines(content@)[i as int], opt_text(cert), opt_text(key)));
                return false;
            }
        }
        i = i + 1;
    }
    true
}

/// Whether the rewritten line `o` survives a second rewrite: it holds no line
/// break, does not end in a carriage return (which reading it back would
/// drop), names a known file where it names one, and `ssl_line` keeps it.
pub open spec fn ssl_line_stable(o: Seq<char>, cert: Option<Seq<char>>, key: Option<Seq<char>>) -> bool {
    &&& !o.contains('\n')
    &&& !(o.len() > 0 && o.last() == '\r')
    &&& ssl_line_defined(o, cert, key)
    &&& ssl_line(o, cert, key) == o
}

/// Switching TLS on twice gives what switching it on once gives, when every
/// rewritten line survives a second rewrite.
pub proof fn lemma_ssl_config_idempotent(
    content: Seq<char>,
    cert: Option<Seq<char>>,
    key: Option<Seq<char>>,
)
    requires
        ssl_config_defined(content, cert, key),
        forall|i: int|
            0 <= i < lines(content).len() ==> ssl_line_stable(
                ssl_line(#[trigger] lines(content)[i], cert, key),
                cert,
                key,
            ),
    ensures
        ssl_config_defined(ssl_config_spec(content, cert, key), cert, key),
        ssl_config_spec(ssl_config_spec(content, cert, key), cert, key) == ssl_config_spec(
            content,
            cert,
            key,
        ),
{
    let ls = lines(content);
    let out = ls.map_values(|l: Seq<char>| ssl_line(l, cert, key));
    let once = ssl_config_spec(content, cert, key);
    assert(ls.map_values(|l: Seq<char>| ssl_line(l, cert, key) + seq!['\n']) =~= out.map_values(
        |l: Seq<char>| l + seq!['\n'],
    ));
    assert(once == unlines(out));
    assert forall|i: int| 0 <= i < out.len() implies !(#[trigger] out[i]).contains('\n') by {
        assert(ssl_line_stable(ssl_line(ls[i], cert, key), cert, key));
    }
    lemma_lines_unlines(out);
    assert(lines(once) =~= out) by {
        assert forall|i: int| 0 <= i < out.len() implies strip_cr(out[i]) == out[i] by {
            assert(ssl_line_stable(ssl_line(ls[i], cert, key), cert, key));
        }
    }
    assert forall|i: int| 0 <= i < lines(once).len() implies #[trigger] ssl_line_defined(
        lines(once)[i],
        cert,
        key,
    ) by {
        assert(ssl_line_stable(ssl_line(ls[i], cert, key), cert, key));
    }
    assert(lines(once).map_values(|l: Seq<char>| ssl_line(l, cert, key) + seq!['\n'])
        =~= out.map_values(|l: Seq<char>| l + seq!['\n'])) by {
        assert forall|i: int| 0 <= i < out.len() implies ssl_line(out[i], cert, key) == out[i] by {
            assert(ssl_line_stable(ssl_line(ls[i], cert, key), cert, key));
        }
    }
}

/// A pattern found in a text is found in any longer text that starts with it.
proof fn lemma_contains_prefix(p: Seq<char>, rest: Seq<char>, pat: Seq<char>)
    requires
        contains(p, pat),
    ensures
        contains(p + rest, pat),
{
    let i = choose|i: int| occurs_at(p, pat, i);
    assert((p + rest).subrange(i, i + pat.len()) =~= p.subrange(i, i + pat.len()));
    assert(occurs_at(p + rest, pat, i));
}

/// What the fixed texts of the TLS rewrite hold and do not hold.
proof fn lemma_setting_literals()
    ensures
        contains("ssl_enable=true"@, "ssl_enable"@),
        !"ssl_enable=true"@.contains('\n'),
        "ssl_enable=true"@.last() != '\r',
        contains("cert_file=\""@, "cert_file"@),
        contains("key_file=\""@, "key_file"@),
        !contains("cert_file=\""@, "ssl_enable"@),
        !contains("key_file=\""@, "ssl_enable"@),
        !contains("key_file=\""@, "cert_file"@),
        !"cert_file=\""@.contains('\n'),
        !"key_file=\""@.contains('\n'),
        "cert_file=\""@.len() > 0 && "cert_file=\""@.last() == '"',
        "key_file=\""@.len() > 0 && "key_file=\""@.last() == '"',
        "\""@ == seq!['"'],
        "ssl_enable"@.len() > 0 && !"ssl_enable"@.contains('"'),
        "cert_file"@.len() > 0 && !"cert_file"@.contains('"'),
{
    reveal_strlit("ssl_enable=true");
    reveal_strlit("ssl_enable");
    reveal_strlit("cert_file");
    reveal_strlit("key_file");
    reveal_strlit("cert_file=\"");
    reveal_strlit("key_file=\"");
    reveal_strlit("\"");
    let on = "ssl_enable=true"@;
    let ssl = "ssl_enable"@;
    let cert = "cert_file"@;
    let keyf = "key_file"@;
    let cp = "cert_file=\""@;
    let kp = "key_file=\""@;
    assert(on.subrange(0, 10) =~= ssl);
    assert(occurs_at(on, ssl, 0));
    assert(cp.subrange(0, 9) =~= cert);
    assert(occurs_at(cp, cert, 0));
    assert(kp.subrange(0, 8) =~= keyf);
    assert(occurs_at(kp, keyf, 0));
    assert forall|i: int| !occurs_at(cp, ssl, i) by {
        if 0 <= i && i + 10 <= cp.len() {
            assert(cp.subrange(i, i + 10)[0] == cp[i]);
        }
    }
    assert forall|i: int| !occurs_at(kp, ssl, i) by {
        if 0 <= i && i + 10 <= kp.len() {
            assert(kp.subrange(i, i + 10)[0] == kp[i]);
        }
    }
    assert forall|i: int| !occurs_at(kp, cert, i) by {
        if 0 <= i && i + 9 <= kp.len() {
            assert(kp.subrange(i, i + 9)[0] == kp[i]);
        }
    }
    assert(!on.contains('\n'));
    assert(!cp.contains('\n'));
    assert(!kp.contains('\n'));
    assert(!ssl.contains('"'));
    assert(!cert.contains('"'));
    assert("\""@ =~= seq!['"']);
}

/// Whether a certificate file name reads back unchanged from
/// `Settings.toml`: it holds no line break and does not name `ssl_enable`.
pub open spec fn cert_name_stable(c: Seq<char>) -> bool {
    !c.contains('\n') && !contains(c, "ssl_enable"@)
}

/// Whether a key file name reads back unchanged from `Settings.toml`: it
/// holds no line break and names neither `ssl_enable` nor `cert_file`.
pub open spec fn key_name_stable(k: Seq<char>) -> bool {
    !k.contains('\n') && !contains(k, "ssl_enable"@) && !contains(k, "cert_file"@)
}

/// Whether a line names none of the settings that the rewrite changes.
pub open spec fn names_no_setting(l: Seq<char>) -> bool {
    !contains(l, "ssl_enable"@) && !contains(l, "cert_file"@) && !contains(l, "key_file"@)
}

/// Switching TLS on twice gives what switching it on once gives, when the
/// certificate and key names hold no line break and none of the settings'
/// names that the rewrite looks for before theirs, and no line left as it
/// stands ends in a carriage return.
pub proof fn lemma_ssl_config_idempotent_for_names(
    content: Seq<char>,
    cert: Option<Seq<char>>,
    key: Option<Seq<char>>,
)
    requires
        ssl_config_defined(content, cert, key),
        cert matches Some(c) ==> cert_name_stable(c),
        key matches Some(k) ==> key_name_stable(k),
        forall|i: int|
            0 <= i < lines(content).len() && names_no_setting(#[trigger] lines(content)[i]) ==> !(
            lines(content)[i].len() > 0 && lines(content)[i].last() == '\r'),
    ensures
        ssl_config_defined(ssl_config_spec(content, cert, key), cert, key),
        ssl_config_spec(ssl_config_spec(content, cert, key), cert, key) == ssl_config_spec(
            content,
            cert,
            key,
        ),
{
    lemma_setting_literals();
    lemma_lines_no_newline(content);
    let ls = lines(content);
    assert forall|i: int| 0 <= i < ls.len() implies ssl_line_stable(
        ssl_line(#[trigger] ls[i], cert, key),
        cert,
        key,
    ) by {
        let l = ls[i];
        assert(ssl_line_defined(lines(content)[i], cert, key));
        let o = ssl_line(l, cert, key);
        if contains(l, "ssl_enable"@) {
            assert(o == "ssl_enable=true"@);
        } else if contains(l, "cert_file"@) {
            let c = cert->0;
            let p = "cert_file=\""@;
            lemma_not_contains_quoted(p, c, '"', "ssl_enable"@);
            assert(o == p + c + seq!['"']);
            lemma_contains_prefix(p, c + seq!['"'], "cert_file"@);
            assert(p + (c + seq!['"']) == p + c + seq!['"']);
            lemma_concat_lacks(p, c, '\n');
            assert(!seq!['"'].contains('\n')) by {
                if seq!['"'].contains('\n') {
                    let k = choose|k: int| 0 <= k < 1 && seq!['"'][k] == '\n';
                }
            }
            lemma_concat_lacks(p + c, seq!['"'], '\n');
            assert(o.last() == '"');
        } else if contains(l, "key_file"@) {
            let k = key->0;
            let p = "key_file=\""@;
            lemma_not_contains_quoted(p, k, '"', "ssl_enable"@);
            lemma_not_contains_quoted(p, k, '"', "cert_file"@);
            assert(o == p + k + seq!['"']);
            lemma_contains_prefix(p, k + seq!['"'], "key_file"@);
            assert(p + (k + seq!['"']) == p + k + seq!['"']);
            lemma_concat_lacks(p, k, '\n');
            assert(!seq!['"'].contains('\n')) by {
                if seq!['"'].contains('\n') {
                    let j = choose|j: int| 0 <= j < 1 && seq!['"'][j] == '\n';
                }
            }
            lemma_concat_lacks(p + k, seq!['"'], '\n');
            assert(o.last() == '"');
        } else {
            assert(o == l);
            assert(names_no_setting(lines(content)[i]));
        }
    }
    lemma_ssl_config_idempotent(content, cert, key);
}

/// What a rewritten `Settings.toml` line keeps of the line it came from: no
/// line break, the settings it names in the order the rewrite looks for
/// them, and, when it was rewritten, no trailing carriage return.
proof fn lemma_ssl_line_keeps_kind(l: Seq<char>, cert: Option<Seq<char>>, key: Option<Seq<char>>)
    requires
        ssl_line_defined(l, cert, key),
        cert matches Some(c) ==> cert_name_stable(c),
        key matches Some(k) ==> key_name_stable(k),
        !l.contains('\n'),
    ensures
        !ssl_line(l, cert, key).contains('\n'),
        names_no_setting(l) ==> ssl_line(l, cert, key) == l,
        !names_no_setting(l) ==> !(ssl_line(l, cert, key).len() > 0 && ssl_line(l, cert, key).last()
            == '\r'),
        contains(ssl_line(l, cert, key), "ssl_enable"@) == contains(l, "ssl_enable"@),
        !contains(l, "ssl_enable"@) ==> contains(ssl_line(l, cert, key), "cert_file"@) == contains(
            l,
            "cert_file"@,
        ),
        !contains(l, "ssl_enable"@) && !contains(l, "cert_file"@) ==> contains(
            ssl_line(l, cert, key),
            "key_file"@,
        ) == contains(l, "key_file"@),
{
    lemma_setting_literals();
    let o = ssl_line(l, cert, key);
    if contains(l, "ssl_enable"@) {
        assert(o == "ssl_enable=true"@);
    } else if contains(l, "cert_file"@) {
        let c = cert->0;
        let p = "cert_file=\""@;
        lemma_not_contains_quoted(p, c, '"', "ssl_enable"@);
        assert(o == p + c + seq!['"']);
        lemma_contains_prefix(p, c + seq!['"'], "cert_file"@);
        assert(p + (c + seq!['"']) == p + c + seq!['"']);
        lemma_concat_lacks(p, c, '\n');
        assert(!seq!['"'].contains('\n')) by {
            if seq!['"'].contains('\n') {
                let j = choose|j: int| 0 <= j < 1 && seq!['"'][j] == '\n';
            }
        }
        lemma_concat_lacks(p + c, seq!['"'], '\n');
        assert(o.last() == '"');
    } else if contains(l, "key_file"@) {
        let k = key->0;
        let p = "key_file=\""@;
        lemma_not_contains_quoted(p, k, '"', "ssl_enable"@);
        lemma_not_contains_quoted(p, k, '"', "cert_file"@);
        assert(o == p + k + seq!['"']);
        lemma_contains_prefix(p, k + seq!['"'], "key_file"@);
        assert(p + (k + seq!['"']) == p + k + seq!['"']);
        lemma_concat_lacks(p, k, '\n');
        assert(!seq!['"'].contains('\n')) by {
            if seq!['"'].contains('\n') {
                let j = choose|j: int| 0 <= j < 1 && seq!['"'][j] == '\n';
            }
        }
        lemma_concat_lacks(p + k, seq!['"'], '\n');
        assert(o.last() == '"');
    } else {
        assert(o == l);
    }
}

/// Reading back a rewritten `Settings.toml` gives the rewritten lines.
proof fn lemma_ssl_reread(content: Seq<char>, cert: Option<Seq<char>>, key: Option<Seq<char>>)
    requires
        ssl_config_defined(content, cert, key),
        cert matches Some(c) ==> cert_name_stable(c),
        key matches Some(k) ==> key_name_stable(k),
        forall|i: int|
            0 <= i < lines(content).len() && names_no_setting(#[trigger] lines(content)[i]) ==> !(
            lines(content)[i].len() > 0 && lines(content)[i].last() == '\r'),
    ensures
        lines(ssl_config_spec(content, cert, key)) == lines(content).map_values(
            |l: Seq<char>| ssl_line(l, cert, key),
        ),
        forall|i: int|
            0 <= i < lines(content).len() ==> {
                let l = #[trigger] lines(content)[i];
                let o = ssl_line(l, cert, key);
                &&& contains(o, "ssl_enable"@) == contains(l, "ssl_enable"@)
                &&& !contains(l, "ssl_enable"@) ==> contains(o, "cert_file"@) == contains(
                    l,
                    "cert_file"@,
                )
                &&& !contains(l, "ssl_enable"@) && !contains(l, "cert_file"@) ==> contains(
                    o,
                    "key_file"@,
                ) == contains(l, "key_file"@)
                &&& names_no_setting(l) ==> o == l
            },
{
    lemma_lines_no_newline(content);
    let ls = lines(content);
    let out = ls.map_values(|l: Seq<char>| ssl_line(l, cert, key));
    let once = ssl_config_spec(content, cert, key);
    assert forall|i: int| 0 <= i < ls.len() implies {
        let l = #[trigger] ls[i];
        let o = ssl_line(l, cert, key);
        &&& !o.contains('\n')
        &&& !(o.len() > 0 && o.last() == '\r')
        &&& contains(o, "ssl_enable"@) == contains(l, "ssl_enable"@)
        &&& !contains(l, "ssl_enable"@) ==> contains(o, "cert_file"@) == contains(l, "cert_file"@)
        &&& !contains(l, "ssl_enable"@) && !contains(l, "cert_file"@) ==> contains(o, "key_file"@)
            == contains(l, "key_file"@)
        &&& names_no_setting(l) ==> o == l
    } by {
        assert(ssl_line_defined(lines(content)[i], cert, key));
        lemma_ssl_line_keeps_kind(ls[i], cert, key);
        if names_no_setting(ls[i]) {
            assert(names_no_setting(lines(content)[i]));
        }
    }
    assert(ls.map_values(|l: Seq<char>| ssl_line(l, cert, key) + seq!['\n']) =~= out.map_values(
        |l: Seq<char>| l + seq!['\n'],
    ));
    assert(once == unlines(out));
    assert forall|i: int| 0 <= i < out.len() implies !(#[trigger] out[i]).contains('\n') by {
        assert(out[i] == ssl_line(ls[i], cert, key));
    }
    lemma_lines_unlines(out);
    assert(lines(once) =~= out) by {
        assert forall|i: int| 0 <= i < out.len() implies strip_cr(out[i]) == out[i] by {
            assert(out[i] == ssl_line(ls[i], cert, key));
        }
    }
}

/// Switching TLS on keeps every line of `Settings.toml` in order, each
/// followed by a line break: a line naming `ssl_enable` becomes
/// `ssl_enable=true`; else a line naming `cert_file`, whatever file it named,
/// becomes `cert_file="<cert>"`; else a line naming `key_file` becomes
/// `key_file="<key>"`; every other line stays as it is.
pub proof fn lemma_ssl_config_lines(
    content: Seq<char>,
    cert: Option<Seq<char>>,
    key: Option<Seq<char>>,
)
    ensures
        ssl_config_spec(content, cert, key) == unlines(
            Seq::new(
                lines(content).len(),
                |i: int|
                    if contains(lines(content)[i], "ssl_enable"@) {
                        "ssl_enable=true"@
                    } else if contains(lines(content)[i], "cert_file"@) {
                        "cert_file=\""@ + cert->0 + "\""@
                    } else if contains(lines(content)[i], "key_file"@) {
                        "key_file=\""@ + key->0 + "\""@
                    } else {
                        lines(content)[i]
                    },
            ),
        ),
{
    let ls = lines(content);
    let expected = Seq::new(
        ls.len(),
        |i: int|
            if contains(ls[i], "ssl_enable"@) {
                "ssl_enable=true"@
            } else if contains(ls[i], "cert_file"@) {
                "cert_file=\""@ + cert->0 + "\""@
            } else if contains(ls[i], "key_file"@) {
                "key_file=\""@ + key->0 + "\""@
            } else {
                ls[i]
            },
    );
    assert(ls.map_values(|l: Seq<char>| ssl_line(l, cert, key) + seq!['\n'])
        =~= expected.map_values(|l: Seq<char>| l + seq!['\n']));
}

/// Switching TLS on with one certificate and key and then with another gives
/// what switching it on with the second pair alone gives: the `cert_file`
/// and `key_file` lines end up naming the second pair whatever they named.
/// It holds when the first names hold no line break and none of the
/// settings' names that the rewrite looks for before theirs, and no line
/// left as it stands ends in a carriage return.
pub proof fn lemma_ssl_config_rerun(
    content: Seq<char>,
    cert1: Option<Seq<char>>,
    key1: Option<Seq<char>>,
    cert2: Option<Seq<char>>,
    key2: Option<Seq<char>>,
)
    requires
        ssl_config_defined(content, cert1, key1),
        cert1 matches Some(c) ==> cert_name_stable(c),
        key1 matches Some(k) ==> key_name_stable(k),
        forall|i: int|
            0 <= i < lines(content).len() && names_no_setting(#[trigger] lines(content)[i]) ==> !(
            lines(content)[i].len() > 0 && lines(content)[i].last() == '\r'),
    ensures
        ssl_config_spec(ssl_config_spec(content, cert1, key1), cert2, key2) == ssl_config_spec(
            content,
            cert2,
            key2,
        ),
{
    lemma_ssl_reread(content, cert1, key1);
    let ls = lines(content);
    let out = ls.map_values(|l: Seq<char>| ssl_line(l, cert1, key1));
    assert forall|i: int| 0 <= i < ls.len() implies ssl_line(out[i], cert2, key2) == ssl_line(
        #[trigger] ls[i],
        cert2,
        key2,
    ) by {
        assert(out[i] == ssl_line(lines(content)[i], cert1, key1));
    }
    assert(out.map_values(|l: Seq<char>| ssl_line(l, cert2, key2) + seq!['\n']) =~= ls.map_values(
        |l: Seq<char>| ssl_line(l, cert2, key2) + seq!['\n'],
    ));
}

/// The views of a list of file names.
pub open spec fn names_view(names: Seq<String>) -> Seq<Seq<char>> {
    names.map_values(|n: String| n@)
}

/// Whether the file named `name` is a PEM file of the kind asked for: its
/// name contains `.pem`, and contains `key` exactly when a key is asked for.
pub open spec fn is_pem_of_kind(name: Seq<char>, want_key: bool) -> bool {
    contains(name, ".pem"@) && contains(name, "key"@) == want_key
}

/// The last of `names` that names a PEM file of the kind asked for.
pub open spec fn last_pem(names: Seq<Seq<char>>, want_key: bool) -> Option<Seq<char>>
    decreases names.len(),
{
    if names.len() == 0 {
        None
    } else if is_pem_of_kind(names.last(), want_key) {
        Some(names.last())
    } else {
        last_pem(names.drop_last(), want_key)
    }
}

/// The choice of `last_pem` is the last name in the list of its kind.
pub proof fn lemma_last_pem_is_last_of_kind(names: Seq<Seq<char>>, want_key: bool)
    ensures
        match last_pem(names, want_key) {
            Some(x) => exists|i: int|
                0 <= i < names.len() && names[i] == x && contains(names[i], ".pem"@) && contains(
                    names[i],
                    "key"@,
                ) == want_key && forall|j: int|
                    i < j < names.len() ==> !(contains(#[trigger] names[j], ".pem"@) && contains(
                        names[j],
                        "key"@,
                    ) == want_key),
            None => forall|j: int|
                0 <= j < names.len() ==> !(contains(#[trigger] names[j], ".pem"@) && contains(
                    names[j],
                    "key"@,
                ) == want_key),
        },
    decreases names.len(),
{
    if names.len() == 0 {
    } else if contains(names.last(), ".pem"@) && contains(names.last(), "key"@) == want_key {
        let i = names.len() - 1;
        assert(names[i] == names.last());
    } else {
        let front = names.drop_last();
        lemma_last_pem_is_last_of_kind(front, want_key);
        match last_pem(front, want_key) {
            Some(x) => {
                let i = choose|i: int|
                    0 <= i < front.len() && front[i] == x && contains(front[i], ".pem"@) && contains(
                        front[i],
                        "key"@,
                    ) == want_key && forall|j: int|
                        i < j < front.len() ==> !(contains(#[trigger] front[j], ".pem"@) && contains(
                            front[j],
                            "key"@,
                        ) == want_key);
                assert(names[i] == front[i]);
                assert forall|j: int| i < j < names.len() implies !(contains(
                    #[trigger] names[j],
                    ".pem"@,
                ) && contains(names[j], "key"@) == want_key) by {
                    if j < front.len() {
                        assert(names[j] == front[j]);
                    }
                }
            },
            None => {
                assert forall|j: int| 0 <= j < names.len() implies !(contains(
                    #[trigger] names[j],
                    ".pem"@,
                ) && contains(names[j], "key"@) == want_key) by {
                    if j < front.len() {
                        assert(names[j] == front[j]);
                    }
                }
            },
        }
    }
}

/// The certificate and key files among the names of the files in the
/// server's folder, in the order the folder was listed: each is the last PEM
/// file of its kind, told apart by whether its name contains `key`.
pub fn select_cert_and_key(names: &Vec<String>) -> (r: (Option<String>, Option<String>))
    ensures
        crate::send::opt_view(r.0) == last_pem(names_view(names@), false),
        crate::send::opt_view(r.1) == last_pem(names_view(names@), true),
        match r.0 {
            Some(c) => exists|i: int|
                #![trigger names@[i]]
                0 <= i < names@.len() && names@[i]@ == c@ && contains(names@[i]@, ".pem"@)
                    && !contains(names@[i]@, "key"@) && forall|j: int|
                    i < j < names@.len() ==> !(contains(#[trigger] names@[j]@, ".pem"@)
                        && !contains(names@[j]@, "key"@)),
            None => forall|j: int|
                0 <= j < names@.len() ==> !(contains(#[trigger] names@[j]@, ".pem"@) && !contains(
                    names@[j]@,
                    "key"@,
                )),
        },
        match r.1 {
            Some(k) => exists|i: int|
                #![trigger names@[i]]
                0 <= i < names@.len() && names@[i]@ == k@ && contains(names@[i]@, ".pem"@)
                    && contains(names@[i]@, "key"@) && forall|j: int|
                    i < j < names@.len() ==> !(contains(#[trigger] names@[j]@, ".pem"@)
                        && contains(names@[j]@, "key"@)),
            None => forall|j: int|
                0 <= j < names@.len() ==> !(contains(#[trigger] names@[j]@, ".pem"@) && contains(
                    names@[j]@,
                    "key"@,
                )),
        },
{
    let pem = chars_of(".pem");
    let key_pat = chars_of("key");
    let mut cert: Option<String> = None;
    let mut key: Option<String> = None;
    let mut i: usize = 0;
    assert(names_view(names@).take(0) =~= Seq::<Seq<char>>::empty());
    while i < names.len()
        invariant
            i <= names@.len(),
            pem@ == ".pem"@,
            key_pat@ == "key"@,
            crate::send::opt_view(cert) == last_pem(names_view(names@).take(i as int), false),
            crate::send::opt_view(key) == last_pem(names_view(names@).take(i as int), true),
        decreases names@.len() - i,
    {
        let name = &names[i];
        let v = chars_of(name.as_str());
        let ghost next = names_view(names@).take(i + 1);
        assert(next.drop_last() =~= names_view(names@).take(i as int));
        assert(next.last() == name@);
        if contains_chars(&v, &pem) {
            if contains_chars(&v, &key_pat) {
                key = Some(name.clone());
            } else {
                cert = Some(name.clone());
            }
        }
        i = i + 1;
    }
    assert(names_view(names@).take(names@.len() as int) =~= names_view(names@));
    proof {
        let nv = names_view(names@);
        lemma_last_pem_is_last_of_kind(nv, false);
        lemma_last_pem_is_last_of_kind(nv, true);
        assert forall|j: int| 0 <= j < names@.len() implies nv[j] == names@[j]@ by {}
        if cert is Some {
            let i = choose|i: int|
                0 <= i < nv.len() && nv[i] == cert->0@ && contains(nv[i], ".pem"@) && contains(
                    nv[i],
                    "key"@,
                ) == false && forall|j: int|
                    i < j < nv.len() ==> !(contains(#[trigger] nv[j], ".pem"@) && contains(
                        nv[j],
                        "key"@,
                    ) == false);
            assert(names@[i]@ == nv[i]);
            assert forall|j: int| i < j < names@.len() implies !(contains(
                #[trigger] names@[j]@,
                ".pem"@,
            ) && !contains(names@[j]@, "key"@)) by {
                assert(nv[j] == names@[j]@);
            }
            assert(0 <= i < names@.len() && names@[i]@ == cert->0@);
            assert(contains(names@[i]@, ".pem"@) && !contains(names@[i]@, "key"@));
        }
        if key is Some {
            let i = choose|i: int|
                0 <= i < nv.len() && nv[i] == key->0@ && contains(nv[i], ".pem"@) && contains(
                    nv[i],
                    "key"@,
                ) == true && forall|j: int|
                    i < j < nv.len() ==> !(contains(#[trigger] nv[j], ".pem"@) && contains(
                        nv[j],
                        "key"@,
                    ) == true);
            assert(names@[i]@ == nv[i]);
            assert forall|j: int| i < j < names@.len() implies !(contains(
                #[trigger] names@[j]@,
                ".pem"@,
            ) && contains(names@[j]@, "key"@)) by {
                assert(nv[j] == names@[j]@);
            }
            assert(0 <= i < names@.len() && names@[i]@ == key->0@);
            assert(contains(names@[i]@, ".pem"@) && contains(names@[i]@, "key"@));
        }
    }
    proof {
        let nv = names_view(names@);
        if cert is None {
            assert forall|j: int| 0 <= j < names@.len() implies !(contains(
                #[trigger] names@[j]@,
                ".pem"@,
            ) && !contains(names@[j]@, "key"@)) by {
                assert(nv[j] == names@[j]@);
            }
        }
        if key is None {
            assert forall|j: int| 0 <= j < names@.len() implies !(contains(
                #[trigger] names@[j]@,
                ".pem"@,
            ) && contains(names@[j]@, "key"@)) by {
                assert(nv[j] == names@[j]@);
            }
        }
    }
    (cert, key)
}

} // verus!
