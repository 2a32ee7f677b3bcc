//! Parsed Kerberos principal names.
//!
//! A principal is a sequence of name components plus a realm. Its textual
//! form joins the components with `/`, appends `@` and the realm, and
//! quotes occurrences of `/`, `@` and `\` inside a component or the realm
//! with a leading backslash. Parsing and unparsing are specified against
//! each other: unparsing a principal and parsing the result gives the
//! principal back (see [`lemma_principal_round_trip`]).

use vstd::prelude::*;

use crate::krb5::{Error, KrbContext, KrbData, Krb5Error, KRB5_CONFIG_NODEFREALM,
    KRB5_PARSE_MALFORMED};

verus! {

/// The component separator `/`.
pub const SEPARATOR: u8 = 47;

/// The realm marker `@`.
pub const REALM_MARKER: u8 = 64;

/// The quoting character `\`.
pub const QUOTE: u8 = 92;

/// A byte that must be quoted when it occurs inside a component or realm.
pub open spec fn is_special(b: u8) -> bool {
    b == SEPARATOR || b == REALM_MARKER || b == QUOTE
}

/// The textual form of one byte: quoted if it is special and quoting is on.
pub open spec fn quote_byte(b: u8, for_display: bool) -> Seq<u8> {
    if is_special(b) && !for_display {
        seq![QUOTE, b]
    } else {
        seq![b]
    }
}

/// The textual form of a component or realm.
pub open spec fn quote_bytes(s: Seq<u8>, for_display: bool) -> Seq<u8>
    decreases s.len(),
{
    if s.len() == 0 {
        Seq::empty()
    } else {
        quote_byte(s[0], for_display) + quote_bytes(s.skip(1), for_display)
    }
}

/// What parsing a principal text yields: the name components, and the realm
/// if the text carried one.
#[verifier::ext_equal]
pub struct ParsedName {
    pub components: Seq<Seq<u8>>,
    pub realm: Option<Seq<u8>>,
}

/// Parse the realm part of a principal text (everything after the unquoted
/// `@`). An unquoted `/` or `@` in the realm, or a trailing quote, is
/// malformed.
pub open spec fn parse_realm(t: Seq<u8>) -> Option<Seq<u8>>
    decreases t.len(),
{
    if t.len() == 0 {
        Some(Seq::empty())
    } else if t[0] == QUOTE {
        if t.len() == 1 {
            None
        } else {
            match parse_realm(t.skip(2)) {
                None => None,
                Some(r) => Some(seq![t[1]] + r),
            }
        }
    } else if t[0] == SEPARATOR || t[0] == REALM_MARKER {
        None
    } else {
        match parse_realm(t.skip(1)) {
            None => None,
            Some(r) => Some(seq![t[0]] + r),
        }
    }
}

/// Parse a principal text into components and an optional realm.
/// An unquoted `/` ends a component, an unquoted `@` starts the realm,
/// and a quote takes the next byte literally; a trailing quote is
/// malformed.
pub open spec fn parse_name(t: Seq<u8>) -> Option<ParsedName>
    decreases t.len(),
{
    if t.len() == 0 {
        Some(ParsedName { components: seq![Seq::empty()], realm: None })
    } else if t[0] == QUOTE {
        if t.len() == 1 {
            None
        } else {
            match parse_name(t.skip(2)) {
                None => None,
                Some(p) => Some(ParsedName {
                    components: p.components.update(0, seq![t[1]] + p.components[0]),
                    realm: p.realm,
                }),
            }
        }
    } else if t[0] == SEPARATOR {
        match parse_name(t.skip(1)) {
            None => None,
            Some(p) => Some(ParsedName {
                components: seq![Seq::<u8>::empty()] + p.components,
                realm: p.realm,
            }),
        }
    } else if t[0] == REALM_MARKER {
        match parse_realm(t.skip(1)) {
            None => None,
            Some(r) => Some(ParsedName {
                components: seq![Seq::<u8>::empty()],
                realm: Some(r),
            }),
        }
    } else {
        match parse_name(t.skip(1)) {
            None => None,
            Some(p) => Some(ParsedName {
                components: p.components.update(0, seq![t[0]] + p.components[0]),
                realm: p.realm,
            }),
        }
    }
}

/// Join quoted components with the separator. The list must be read as
/// non-empty; a single component is just its quoted form.
pub open spec fn join_components(cs: Seq<Seq<u8>>, for_display: bool) -> Seq<u8>
    decreases cs.len(),
{
    if cs.len() <= 1 {
        if cs.len() == 0 {
            Seq::empty()
        } else {
            quote_bytes(cs[0], for_display)
        }
    } else {
        quote_bytes(cs[0], for_display) + seq![SEPARATOR] + join_components(cs.skip(1), for_display)
    }
}

/// Whether the realm suffix is included in an unparse: always for
/// `Always`; for `IfForeign` only when the realm differs from the
/// context's default realm (or no default is configured); never for
/// `Never`.
pub open spec fn realm_included(
    mode: PrincipalRealmDisplayMode,
    realm: Seq<u8>,
    default_realm: Option<Seq<u8>>,
) -> bool {
    match mode {
        PrincipalRealmDisplayMode::Always => true,
        PrincipalRealmDisplayMode::IfForeign => default_realm != Some(realm),
        PrincipalRealmDisplayMode::Never => false,
    }
}

/// The textual form of a principal under the given options, in the scope
/// of a context with the given default realm.
pub open spec fn unparse_name(
    cs: Seq<Seq<u8>>,
    realm: Seq<u8>,
    options: PrincipalUnparseOptions,
    default_realm: Option<Seq<u8>>,
) -> Seq<u8> {
    let name = join_components(cs, options.for_display);
    if realm_included(options.realm, realm, default_realm) {
        name + seq![REALM_MARKER] + quote_bytes(realm, options.for_display)
    } else {
        name
    }
}

/// Optional settings for [`Principal::unparse`].
#[derive(Clone, Copy)]
pub struct PrincipalUnparseOptions {
    /// Controls whether the realm is included.
    pub realm: PrincipalRealmDisplayMode,
    /// Special characters are not quoted in display mode, even if this
    /// would generate a principal text that cannot be parsed back.
    pub for_display: bool,
}

impl Default for PrincipalUnparseOptions {
    fn default() -> (r: Self)
        ensures
            r.realm is Always,
            !r.for_display,
    {
        PrincipalUnparseOptions { realm: PrincipalRealmDisplayMode::Always, for_display: false }
    }
}

/// See [`PrincipalUnparseOptions::realm`].
#[derive(Clone, Copy)]
pub enum PrincipalRealmDisplayMode {
    /// The realm is always included.
    Always,
    /// The realm is only included if it is not the default realm.
    IfForeign,
    /// The realm is never included. This may create ambiguity in
    /// multi-realm configurations.
    Never,
}

impl Default for PrincipalRealmDisplayMode {
    fn default() -> (r: Self)
        ensures
            r is Always,
    {
        PrincipalRealmDisplayMode::Always
    }
}

/// The flag value for realm mode `IfForeign`.
pub const UNPARSE_FLAG_SHORT: i32 = 1;

/// The flag value for realm mode `Never`.
pub const UNPARSE_FLAG_NO_REALM: i32 = 2;

/// The flag value for display mode (no quoting).
pub const UNPARSE_FLAG_DISPLAY: i32 = 4;

impl PrincipalUnparseOptions {
    /// The flag word these options select on the unparse wire call.
    pub fn to_flags(self) -> (r: i32)
        ensures
            r == (match self.realm {
                PrincipalRealmDisplayMode::Always => 0i32,
                PrincipalRealmDisplayMode::IfForeign => UNPARSE_FLAG_SHORT,
                PrincipalRealmDisplayMode::Never => UNPARSE_FLAG_NO_REALM,
            }) | (if self.for_display { UNPARSE_FLAG_DISPLAY } else { 0i32 }),
    {
        let realm: i32 = match self.realm {
            PrincipalRealmDisplayMode::Always => 0,
            PrincipalRealmDisplayMode::IfForeign => UNPARSE_FLAG_SHORT,
            PrincipalRealmDisplayMode::Never => UNPARSE_FLAG_NO_REALM,
        };
        let for_display: i32 = if self.for_display { UNPARSE_FLAG_DISPLAY } else { 0 };
        realm | for_display
    }
}

/// Quoting distributes over appending one byte.
proof fn lemma_quote_snoc(s: Seq<u8>, b: u8, for_display: bool)
    ensures
        quote_bytes(s.push(b), for_display) == quote_bytes(s, for_display) + quote_byte(b, for_display),
    decreases s.len(),
{
    let sp = s.push(b);
    if s.len() == 0 {
        assert(sp[0] == b);
        assert(sp.skip(1) =~= Seq::<u8>::empty());
        assert(quote_bytes(sp, for_display) == quote_byte(b, for_display) + quote_bytes(
            Seq::<u8>::empty(),
            for_display,
        ));
        assert(quote_byte(b, for_display) + Seq::<u8>::empty() =~= quote_byte(b, for_display));
        assert(Seq::<u8>::empty() + quote_byte(b, for_display) =~= quote_byte(b, for_display));
    } else {
        assert(sp[0] == s[0]);
        assert(sp.skip(1) =~= s.skip(1).push(b));
        lemma_quote_snoc(s.skip(1), b, for_display);
        assert(quote_bytes(sp, for_display) == quote_byte(s[0], for_display) + (quote_bytes(
            s.skip(1),
            for_display,
        ) + quote_byte(b, for_display)));
        assert(quote_byte(s[0], for_display) + (quote_bytes(s.skip(1), for_display) + quote_byte(
            b,
            for_display,
        )) =~= (quote_byte(s[0], for_display) + quote_bytes(s.skip(1), for_display)) + quote_byte(
            b,
            for_display,
        ));
    }
}

/// Joining distributes over appending one component.
proof fn lemma_join_snoc(cs: Seq<Seq<u8>>, c: Seq<u8>, for_display: bool)
    requires
        cs.len() >= 1,
    ensures
        join_components(cs.push(c), for_display) ==
            join_components(cs, for_display) + seq![SEPARATOR] + quote_bytes(c, for_display),
    decreases cs.len(),
{
    let cp = cs.push(c);
    assert(cp[0] == cs[0]);
    if cs.len() == 1 {
        assert(cp.skip(1) =~= seq![c]);
        assert(seq![c][0] == c);
        assert(seq![c].skip(1) =~= Seq::<Seq<u8>>::empty());
        assert(join_components(seq![c], for_display) == quote_bytes(c, for_display));
        assert(join_components(cp, for_display) == quote_bytes(cs[0], for_display) + seq![SEPARATOR]
            + quote_bytes(c, for_display));
    } else {
        assert(cp.skip(1) =~= cs.skip(1).push(c));
        lemma_join_snoc(cs.skip(1), c, for_display);
        assert(join_components(cp, for_display) == quote_bytes(cs[0], for_display) + seq![SEPARATOR]
            + (join_components(cs.skip(1), for_display) + seq![SEPARATOR] + quote_bytes(
            c,
            for_display,
        )));
        assert(quote_bytes(cs[0], for_display) + seq![SEPARATOR] + (join_components(
            cs.skip(1),
            for_display,
        ) + seq![SEPARATOR] + quote_bytes(c, for_display)) =~= (quote_bytes(cs[0], for_display)
            + seq![SEPARATOR] + join_components(cs.skip(1), for_display)) + seq![SEPARATOR]
            + quote_bytes(c, for_display));
    }
}

/// Append the quoted form of `s` to `out`.
fn push_quoted(out: &mut Vec<u8>, s: &Vec<u8>, for_display: bool)
    ensures
        final(out)@ == old(out)@ + quote_bytes(s@, for_display),
{
    let ghost out0 = old(out)@;
    let mut j: usize = 0;
    while j < s.len()
        invariant
            0 <= j <= s.len(),
            out@ == out0 + quote_bytes(s@.take(j as int), for_display),
        decreases s.len() - j,
    {
        let b = s[j];
        if (b == SEPARATOR || b == REALM_MARKER || b == QUOTE) && !for_display {
            out.push(QUOTE);
            out.push(b);
        } else {
            out.push(b);
        }
        proof {
            assert(s@.take(j + 1) =~= s@.take(j as int).push(s@[j as int]));
            lemma_quote_snoc(s@.take(j as int), s@[j as int], for_display);
            assert(out@ =~= out0 + quote_bytes(s@.take(j + 1), for_display));
        }
        j += 1;
    }
    proof {
        assert(s@.take(s@.len() as int) =~= s@);
    }
}

/// The concatenation of all components, in order, with nothing between
/// them.
pub open spec fn concat_components(cs: Seq<Seq<u8>>) -> Seq<u8>
    decreases cs.len(),
{
    if cs.len() == 0 {
        Seq::empty()
    } else {
        cs[0] + concat_components(cs.skip(1))
    }
}

/// The default salt of a principal: the realm followed by every name
/// component, concatenated.
pub open spec fn default_salt_spec(cs: Seq<Seq<u8>>, realm: Seq<u8>) -> Seq<u8> {
    realm + concat_components(cs)
}

proof fn lemma_concat_snoc(cs: Seq<Seq<u8>>, c: Seq<u8>)
    ensures
        concat_components(cs.push(c)) == concat_components(cs) + c,
    decreases cs.len(),
{
    let cp = cs.push(c);
    if cs.len() == 0 {
        assert(cp[0] == c);
        assert(cp.skip(1) =~= Seq::<Seq<u8>>::empty());
        assert(concat_components(Seq::<Seq<u8>>::empty()) == Seq::<u8>::empty());
        assert(concat_components(cp) == c + Seq::<u8>::empty());
        assert(c + Seq::<u8>::empty() =~= c);
        assert(Seq::<u8>::empty() + c =~= c);
    } else {
        assert(cp[0] == cs[0]);
        assert(cp.skip(1) =~= cs.skip(1).push(c));
        lemma_concat_snoc(cs.skip(1), c);
        assert(cs[0] + (concat_components(cs.skip(1)) + c) =~= (cs[0] + concat_components(
            cs.skip(1),
        )) + c);
    }
}

/// Append all of `s` to `out`.
fn push_all(out: &mut Vec<u8>, s: &Vec<u8>)
    ensures
        final(out)@ == old(out)@ + s@,
{
    let ghost out0 = old(out)@;
    let mut j: usize = 0;
    while j < s.len()
        invariant
            0 <= j <= s.len(),
            out@ == out0 + s@.take(j as int),
        decreases s.len() - j,
    {
        out.push(s[j]);
        proof {
            assert(s@.take(j + 1) =~= s@.take(j as int).push(s@[j as int]));
            assert(out@ =~= out0 + s@.take(j + 1));
        }
        j += 1;
    }
    proof {
        assert(s@.take(s@.len() as int) =~= s@);
    }
}

/// The sequences-of-bytes view of a list of byte vectors.
pub open spec fn components_view(v: Seq<Vec<u8>>) -> Seq<Seq<u8>> {
    Seq::new(v.len(), |i: int| v[i]@)
}

/// How a partially consumed text combines with the parse of the remaining
/// text: `done` components are finished, `cur` is the open component the
/// remaining text extends.
pub open spec fn combine(done: Seq<Seq<u8>>, cur: Seq<u8>, rest: Option<ParsedName>) -> Option<
    ParsedName,
> {
    match rest {
        None => None,
        Some(p) => Some(
            ParsedName {
                components: done + seq![cur + p.components[0]] + p.components.skip(1),
                realm: p.realm,
            },
        ),
    }
}

/// Like [`combine`], for the realm part: `acc` is what the remaining text
/// extends.
pub open spec fn combine_realm(acc: Seq<u8>, rest: Option<Seq<u8>>) -> Option<Seq<u8>> {
    match rest {
        None => None,
        Some(r) => Some(acc + r),
    }
}

proof fn lemma_combine_quote_step(done: Seq<Seq<u8>>, cur: Seq<u8>, t: Seq<u8>)
    requires
        t.len() >= 2,
        t[0] == QUOTE,
    ensures
        combine(done, cur, parse_name(t)) == combine(done, cur.push(t[1]), parse_name(t.skip(2))),
{
    lemma_parse_name_components_nonempty(t.skip(2));
    match parse_name(t.skip(2)) {
        None => {},
        Some(p) => {
            assert(p.components.update(0, seq![t[1]] + p.components[0]).skip(1) =~= p.components.skip(
                1,
            ));
            assert(cur + (seq![t[1]] + p.components[0]) =~= cur.push(t[1]) + p.components[0]);
            assert(done + seq![cur + (seq![t[1]] + p.components[0])] + p.components.skip(1) =~= done
                + seq![cur.push(t[1]) + p.components[0]] + p.components.skip(1));
        },
    }
}

proof fn lemma_combine_plain_step(done: Seq<Seq<u8>>, cur: Seq<u8>, t: Seq<u8>)
    requires
        t.len() >= 1,
        !is_special(t[0]),
    ensures
        combine(done, cur, parse_name(t)) == combine(done, cur.push(t[0]), parse_name(t.skip(1))),
{
    lemma_parse_name_components_nonempty(t.skip(1));
    match parse_name(t.skip(1)) {
        None => {},
        Some(p) => {
            assert(p.components.update(0, seq![t[0]] + p.components[0]).skip(1) =~= p.components.skip(
                1,
            ));
            assert(cur + (seq![t[0]] + p.components[0]) =~= cur.push(t[0]) + p.components[0]);
            assert(done + seq![cur + (seq![t[0]] + p.components[0])] + p.components.skip(1) =~= done
                + seq![cur.push(t[0]) + p.components[0]] + p.components.skip(1));
        },
    }
}

proof fn lemma_combine_separator_step(done: Seq<Seq<u8>>, cur: Seq<u8>, t: Seq<u8>)
    requires
        t.len() >= 1,
        t[0] == SEPARATOR,
    ensures
        combine(done, cur, parse_name(t)) == combine(
            done.push(cur),
            Seq::empty(),
            parse_name(t.skip(1)),
        ),
{
    lemma_parse_name_components_nonempty(t.skip(1));
    match parse_name(t.skip(1)) {
        None => {},
        Some(p) => {
            let q = seq![Seq::<u8>::empty()] + p.components;
            assert(q[0] == Seq::<u8>::empty());
            assert(q.skip(1) =~= p.components);
            assert(cur + Seq::<u8>::empty() =~= cur);
            assert(Seq::<u8>::empty() + p.components[0] =~= p.components[0]);
            assert(p.components =~= seq![p.components[0]] + p.components.skip(1));
            assert(done + seq![cur + q[0]] + q.skip(1) =~= done.push(cur) + seq![
                Seq::<u8>::empty() + p.components[0],
            ] + p.components.skip(1));
        },
    }
}

proof fn lemma_combine_marker(done: Seq<Seq<u8>>, cur: Seq<u8>, t: Seq<u8>)
    requires
        t.len() >= 1,
        t[0] == REALM_MARKER,
    ensures
        combine(done, cur, parse_name(t)) == (match parse_realm(t.skip(1)) {
            None => None,
            Some(rm) => Some(ParsedName { components: done + seq![cur], realm: Some(rm) }),
        }),
{
    match parse_realm(t.skip(1)) {
        None => {},
        Some(rm) => {
            let q = seq![Seq::<u8>::empty()];
            assert(q[0] == Seq::<u8>::empty());
            assert(q.skip(1) =~= Seq::<Seq<u8>>::empty());
            assert(cur + Seq::<u8>::empty() =~= cur);
            assert(done + seq![cur + q[0]] + q.skip(1) =~= done + seq![cur]);
        },
    }
}

proof fn lemma_combine_finish(done: Seq<Seq<u8>>, cur: Seq<u8>)
    ensures
        combine(done, cur, parse_name(Seq::<u8>::empty())) == Some(
            ParsedName { components: done + seq![cur], realm: None },
        ),
{
    let q = seq![Seq::<u8>::empty()];
    assert(q[0] == Seq::<u8>::empty());
    assert(q.skip(1) =~= Seq::<Seq<u8>>::empty());
    assert(cur + Seq::<u8>::empty() =~= cur);
    assert(done + seq![cur + q[0]] + q.skip(1) =~= done + seq![cur]);
}

/// Parsing the quoted form of a realm gives the realm back.
proof fn lemma_parse_realm_quote(r: Seq<u8>)
    ensures
        parse_realm(quote_bytes(r, false)) == Some(r),
    decreases r.len(),
{
    if r.len() == 0 {
        assert(quote_bytes(r, false) =~= Seq::<u8>::empty());
        assert(r =~= Seq::<u8>::empty());
    } else {
        let b = r[0];
        let rest = quote_bytes(r.skip(1), false);
        lemma_parse_realm_quote(r.skip(1));
        if is_special(b) {
            let t = quote_bytes(r, false);
            assert(t =~= seq![QUOTE, b] + rest);
            assert(t[0] == QUOTE);
            assert(t[1] == b);
            assert(t.len() >= 2);
            assert(t.skip(2) =~= rest);
            assert(seq![b] + r.skip(1) =~= r);
        } else {
            let t = quote_bytes(r, false);
            assert(t =~= seq![b] + rest);
            assert(t[0] == b);
            assert(t.skip(1) =~= rest);
            assert(seq![b] + r.skip(1) =~= r);
        }
    }
}

/// Parsing a quoted component followed by any tail prepends the component
/// to the first component of the tail's parse.
proof fn lemma_parse_quoted_prepend(c: Seq<u8>, t: Seq<u8>)
    ensures
        parse_name(quote_bytes(c, false) + t) == combine(Seq::<Seq<u8>>::empty(), c, parse_name(t)),
    decreases c.len(),
{
    lemma_parse_name_components_nonempty(t);
    if c.len() == 0 {
        assert(quote_bytes(c, false) + t =~= t);
        match parse_name(t) {
            None => {},
            Some(p) => {
                assert(Seq::<u8>::empty() + p.components[0] =~= p.components[0]);
                assert(p.components =~= seq![p.components[0]] + p.components.skip(1));
                assert(Seq::<Seq<u8>>::empty() + seq![Seq::<u8>::empty() + p.components[0]]
                    + p.components.skip(1) =~= p.components);
                assert(c =~= Seq::<u8>::empty());
            },
        }
    } else {
        let b = c[0];
        let ctail = c.skip(1);
        let u = quote_bytes(ctail, false) + t;
        lemma_parse_quoted_prepend(ctail, t);
        lemma_parse_name_components_nonempty(u);
        let full = quote_bytes(c, false) + t;
        assert(c =~= seq![b] + ctail);
        if is_special(b) {
            assert(full =~= seq![QUOTE, b] + u);
            assert(full[0] == QUOTE);
            assert(full[1] == b);
            assert(full.len() >= 2);
            assert(full.skip(2) =~= u);
            match parse_name(t) {
                None => {},
                Some(p) => {
                    let pu = parse_name(u).unwrap();
                    assert(pu.components == Seq::<Seq<u8>>::empty() + seq![ctail + p.components[0]]
                        + p.components.skip(1));
                    assert(pu.components[0] == ctail + p.components[0]);
                    assert(pu.components.update(0, seq![b] + pu.components[0]).skip(1)
                        =~= p.components.skip(1));
                    assert(seq![b] + (ctail + p.components[0]) =~= c + p.components[0]);
                    assert(pu.components.update(0, seq![b] + pu.components[0])
                        =~= Seq::<Seq<u8>>::empty() + seq![c + p.components[0]]
                        + p.components.skip(1));
                },
            }
        } else {
            assert(full =~= seq![b] + u);
            assert(full[0] == b);
            assert(full.skip(1) =~= u);
            match parse_name(t) {
                None => {},
                Some(p) => {
                    let pu = parse_name(u).unwrap();
                    assert(pu.components == Seq::<Seq<u8>>::empty() + seq![ctail + p.components[0]]
                        + p.components.skip(1));
                    assert(pu.components[0] == ctail + p.components[0]);
                    assert(pu.components.update(0, seq![b] + pu.components[0]).skip(1)
                        =~= p.components.skip(1));
                    assert(seq![b] + (ctail + p.components[0]) =~= c + p.components[0]);
                    assert(pu.components.update(0, seq![b] + pu.components[0])
                        =~= Seq::<Seq<u8>>::empty() + seq![c + p.components[0]]
                        + p.components.skip(1));
                },
            }
        }
    }
}

/// The principal round trip: unparsing a principal with the realm always
/// shown and quoting on, and parsing the result, gives back exactly the
/// same components and realm, whatever bytes they hold and whatever the
/// default realm of the parsing context is.
pub proof fn lemma_principal_round_trip(
    cs: Seq<Seq<u8>>,
    realm: Seq<u8>,
    options: PrincipalUnparseOptions,
    default_realm: Option<Seq<u8>>,
)
    requires
        cs.len() >= 1,
        options.realm is Always,
        !options.for_display,
    ensures
        parse_name(unparse_name(cs, realm, options, default_realm)) == Some(
            ParsedName { components: cs, realm: Some(realm) },
        ),
    decreases cs.len(),
{
    let q = quote_bytes(realm, false);
    lemma_parse_realm_quote(realm);
    if cs.len() == 1 {
        let t1 = seq![REALM_MARKER] + q;
        assert(t1[0] == REALM_MARKER);
        assert(t1.skip(1) =~= q);
        assert(parse_name(t1) == Some(
            ParsedName { components: seq![Seq::<u8>::empty()], realm: Some(realm) },
        ));
        lemma_parse_quoted_prepend(cs[0], t1);
        assert(unparse_name(cs, realm, options, default_realm) =~= quote_bytes(cs[0], false) + t1);
        assert(cs[0] + Seq::<u8>::empty() =~= cs[0]);
        assert(Seq::<Seq<u8>>::empty() + seq![cs[0] + Seq::<u8>::empty()] + seq![
            Seq::<u8>::empty(),
        ].skip(1) =~= cs);
    } else {
        lemma_principal_round_trip(cs.skip(1), realm, options, default_realm);
        let u = unparse_name(cs.skip(1), realm, options, default_realm);
        let t2 = seq![SEPARATOR] + u;
        assert(t2[0] == SEPARATOR);
        assert(t2.skip(1) =~= u);
        assert(parse_name(t2) == Some(
            ParsedName {
                components: seq![Seq::<u8>::empty()] + cs.skip(1),
                realm: Some(realm),
            },
        ));
        lemma_parse_quoted_prepend(cs[0], t2);
        assert(unparse_name(cs, realm, options, default_realm) =~= quote_bytes(cs[0], false) + t2);
        let inner = seq![Seq::<u8>::empty()] + cs.skip(1);
        assert(inner[0] == Seq::<u8>::empty());
        assert(cs[0] + Seq::<u8>::empty() =~= cs[0]);
        assert(inner.skip(1) =~= cs.skip(1));
        assert(Seq::<Seq<u8>>::empty() + seq![cs[0] + inner[0]] + inner.skip(1) =~= cs);
    }
}

/// With realm display `IfForeign`, a principal in the context's default
/// realm unparses without the realm suffix, while a principal in any other
/// realm keeps it.
pub proof fn lemma_if_foreign_realm_suffix(
    cs: Seq<Seq<u8>>,
    realm: Seq<u8>,
    options: PrincipalUnparseOptions,
    default_realm: Seq<u8>,
)
    requires
        options.realm is IfForeign,
    ensures
        realm == default_realm ==> unparse_name(cs, realm, options, Some(default_realm))
            == join_components(cs, options.for_display),
        realm != default_realm ==> unparse_name(cs, realm, options, Some(default_realm))
            == join_components(cs, options.for_display) + seq![REALM_MARKER] + quote_bytes(
            realm,
            options.for_display,
        ),
{
}

fn malformed_message() -> String {
    "malformed principal text".to_string()
}

/// Parse the realm part of a principal text, starting at `start`.
fn parse_realm_exec(t: &Vec<u8>, start: usize) -> (r: Result<Vec<u8>, Error>)
    requires
        start <= t@.len(),
    ensures
        match r {
            Ok(v) => parse_realm(t@.skip(start as int)) == Some(v@),
            Err(e) => parse_realm(t@.skip(start as int)) is None && (e matches Error::Krb5 {
                reason,
            } && reason.code == KRB5_PARSE_MALFORMED),
        },
{
    let n = t.len();
    let mut j = start;
    let mut acc: Vec<u8> = Vec::new();
    while j < n
        invariant
            start <= j <= n,
            n == t@.len(),
            combine_realm(acc@, parse_realm(t@.skip(j as int))) == parse_realm(
                t@.skip(start as int),
            ),
        decreases n - j,
    {
        let b = t[j];
        proof {
            assert(t@.skip(j as int)[0] == b);
        }
        if b == QUOTE {
            if j + 1 >= n {
                proof {
                    assert(t@.skip(j as int).len() == 1);
                }
                return Err(
                    Error::Krb5 {
                        reason: Krb5Error {
                            message: malformed_message(),
                            code: KRB5_PARSE_MALFORMED,
                        },
                    },
                );
            }
            let c = t[j + 1];
            proof {
                let rest = t@.skip(j as int);
                assert(rest[1] == c);
                assert(rest.skip(2) =~= t@.skip(j + 2));
                match parse_realm(t@.skip(j + 2)) {
                    None => {},
                    Some(rm) => {
                        assert(acc@ + (seq![c] + rm) =~= acc@.push(c) + rm);
                    },
                }
            }
            acc.push(c);
            j += 2;
        } else if b == SEPARATOR || b == REALM_MARKER {
            return Err(
                Error::Krb5 {
                    reason: Krb5Error { message: malformed_message(), code: KRB5_PARSE_MALFORMED },
                },
            );
        } else {
            proof {
                let rest = t@.skip(j as int);
                assert(rest.skip(1) =~= t@.skip(j + 1));
                match parse_realm(t@.skip(j + 1)) {
                    None => {},
                    Some(rm) => {
                        assert(acc@ + (seq![b] + rm) =~= acc@.push(b) + rm);
                    },
                }
            }
            acc.push(b);
            j += 1;
        }
    }
    proof {
        assert(t@.skip(n as int).len() == 0);
        assert(acc@ + Seq::<u8>::empty() =~= acc@);
    }
    Ok(acc)
}

impl KrbContext {
    /// Parse a Kerberos principal text into a [`Principal`].
    ///
    /// This is done in the scope of the context: if the text names no
    /// realm, the context's default realm is used, and its absence is
    /// reported as [`KRB5_CONFIG_NODEFREALM`]. A malformed text (a
    /// trailing quote, or an unquoted `/` or `@` in the realm) is reported
    /// as [`KRB5_PARSE_MALFORMED`].
    pub fn parse_principal_name<'a>(&'a self, princ_name: &Vec<u8>) -> (r: Result<
        Principal<'a>,
        Error,
    >)
        ensures
            match r {
                Ok(p) => {
                    &&& parse_name(princ_name@) is Some
                    &&& p.wf()
                    &&& p.ctx == self
                    &&& p.spec_components() == parse_name(princ_name@).unwrap().components
                    &&& match parse_name(princ_name@).unwrap().realm {
                        Some(rm) => p.realm@ == rm,
                        None => Some(p.realm@) == self.spec_default_realm(),
                    }
                },
                Err(e) => {
                    &&& e matches Error::Krb5 { reason } && (if parse_name(princ_name@) is None {
                        reason.code == KRB5_PARSE_MALFORMED
                    } else {
                        &&& parse_name(princ_name@).unwrap().realm is None
                        &&& self.spec_default_realm() is None
                        &&& reason.code == KRB5_CONFIG_NODEFREALM
                    })
                },
            },
    {
        let t = princ_name;
        let n = t.len();
        let mut i: usize = 0;
        let mut cur: Vec<u8> = Vec::new();
        let mut done: Vec<Vec<u8>> = Vec::new();
        proof {
            assert(t@.skip(0) =~= t@);
            lemma_parse_name_components_nonempty(t@);
            assert(components_view(done@) =~= Seq::<Seq<u8>>::empty());
            match parse_name(t@) {
                None => {},
                Some(p) => {
                    assert(Seq::<u8>::empty() + p.components[0] =~= p.components[0]);
                    assert(p.components =~= seq![p.components[0]] + p.components.skip(1));
                    assert(Seq::<Seq<u8>>::empty() + seq![Seq::<u8>::empty() + p.components[0]]
                        + p.components.skip(1) =~= p.components);
                },
            }
        }
        while i < n
            invariant
                0 <= i <= n,
                n == t@.len(),
                t == princ_name,
                combine(components_view(done@), cur@, parse_name(t@.skip(i as int))) == parse_name(
                    t@,
                ),
            decreases n - i,
        {
            let b = t[i];
            proof {
                assert(t@.skip(i as int)[0] == b);
            }
            if b == QUOTE {
                if i + 1 >= n {
                    proof {
                        assert(t@.skip(i as int).len() == 1);
                        assert(parse_name(t@.skip(i as int)) is None);
                        assert(parse_name(t@) is None);
                    }
                    return Err(
                        Error::Krb5 {
                            reason: Krb5Error {
                                message: malformed_message(),
                                code: KRB5_PARSE_MALFORMED,
                            },
                        },
                    );
                }
                let c = t[i + 1];
                proof {
                    let rest = t@.skip(i as int);
                    assert(rest[1] == c);
                    assert(rest.skip(2) =~= t@.skip(i + 2));
                    lemma_combine_quote_step(components_view(done@), cur@, rest);
                }
                cur.push(c);
                i += 2;
            } else if b == SEPARATOR {
                proof {
                    let rest = t@.skip(i as int);
                    assert(rest.skip(1) =~= t@.skip(i + 1));
                    lemma_combine_separator_step(components_view(done@), cur@, rest);
                }
                let finished = cur;
                cur = Vec::new();
                proof {
                    assert(components_view(done@.push(finished)) =~= components_view(done@).push(
                        finished@,
                    ));
                }
                done.push(finished);
                i += 1;
            } else if b == REALM_MARKER {
                proof {
                    let rest = t@.skip(i as int);
                    assert(rest.skip(1) =~= t@.skip(i + 1));
                    lemma_combine_marker(components_view(done@), cur@, rest);
                }
                let realm = match parse_realm_exec(t, i + 1) {
                    Ok(v) => v,
                    Err(e) => {
                        proof {
                            assert(parse_realm(t@.skip(i + 1)) is None);
                            assert(parse_name(t@.skip(i as int)) is None);
                            assert(parse_name(t@) is None);
                        }
                        return Err(e);
                    },
                };
                proof {
                    assert(components_view(done@.push(cur)) =~= components_view(done@).push(cur@));
                }
                done.push(cur);
                return Ok(Principal { ctx: self, components: done, realm });
            } else {
                proof {
                    let rest = t@.skip(i as int);
                    assert(rest.skip(1) =~= t@.skip(i + 1));
                    lemma_combine_plain_step(components_view(done@), cur@, rest);
                }
                cur.push(b);
                i += 1;
            }
        }
        proof {
            assert(t@.skip(n as int) =~= Seq::<u8>::empty());
            lemma_combine_finish(components_view(done@), cur@);
            assert(components_view(done@.push(cur)) =~= components_view(done@).push(cur@));
        }
        let realm = match self.default_realm_bytes() {
            Some(d) => crate::copy_bytes(d),
            None => {
                return Err(
                    Error::Krb5 {
                        reason: Krb5Error {
                            message: "no default realm to qualify the principal with".to_string(),
                            code: KRB5_CONFIG_NODEFREALM,
                        },
                    },
                );
            },
        };
        done.push(cur);
        Ok(Principal { ctx: self, components: done, realm })
    }
}

/// A parsed Kerberos principal name.
///
/// Created by [`KrbContext::parse_principal_name`]; borrows the context it
/// was parsed in, so it cannot outlive it.
pub struct Principal<'a> {
    pub ctx: &'a KrbContext,
    pub components: Vec<Vec<u8>>,
    pub realm: Vec<u8>,
}

impl<'a> Principal<'a> {
    /// A principal always has at least one name component.
    pub open spec fn wf(&self) -> bool {
        self.components@.len() >= 1
    }

    /// The name components as mathematical sequences.
    pub open spec fn spec_components(&self) -> Seq<Seq<u8>> {
        components_view(self.components@)
    }

    /// The default salt when deriving keys for this principal: the realm
    /// followed by the concatenated name components.
    pub fn default_salt(&self) -> (r: KrbData<'a>)
        ensures
            r.contents@ == default_salt_spec(self.spec_components(), self.realm@),
            r.ctx == self.ctx,
    {
        let ghost cs = self.spec_components();
        let mut out: Vec<u8> = Vec::new();
        push_all(&mut out, &self.realm);
        proof {
            assert(out@ =~= self.realm@);
            assert(cs.take(0) =~= Seq::<Seq<u8>>::empty());
            assert(out@ =~= self.realm@ + concat_components(cs.take(0)));
        }
        let mut k: usize = 0;
        while k < self.components.len()
            invariant
                0 <= k <= self.components@.len(),
                cs == self.spec_components(),
                cs.len() == self.components@.len(),
                out@ == self.realm@ + concat_components(cs.take(k as int)),
            decreases self.components@.len() - k,
        {
            push_all(&mut out, &self.components[k]);
            proof {
                assert(cs.take(k + 1) =~= cs.take(k as int).push(cs[k as int]));
                lemma_concat_snoc(cs.take(k as int), cs[k as int]);
                assert(out@ =~= self.realm@ + concat_components(cs.take(k + 1)));
            }
            k += 1;
        }
        proof {
            assert(cs.take(cs.len() as int) =~= cs);
        }
        KrbData { ctx: self.ctx, contents: out }
    }

    /// Convert the parsed principal back into its textual form.
    pub fn unparse(&self, options: PrincipalUnparseOptions) -> (r: Vec<u8>)
        requires
            self.wf(),
        ensures
            r@ == unparse_name(
                self.spec_components(),
                self.realm@,
                options,
                self.ctx.spec_default_realm(),
            ),
    {
        let ghost cs = self.spec_components();
        let mut out: Vec<u8> = Vec::new();
        push_quoted(&mut out, &self.components[0], options.for_display);
        proof {
            assert(cs.take(1) =~= seq![cs[0]]);
            assert(out@ =~= join_components(cs.take(1), options.for_display));
        }
        let mut k: usize = 1;
        while k < self.components.len()
            invariant
                1 <= k <= self.components@.len(),
                cs == self.spec_components(),
                cs.len() == self.components@.len(),
                out@ == join_components(cs.take(k as int), options.for_display),
            decreases self.components@.len() - k,
        {
            out.push(SEPARATOR);
            push_quoted(&mut out, &self.components[k], options.for_display);
            proof {
                assert(cs.take(k + 1) =~= cs.take(k as int).push(cs[k as int]));
                lemma_join_snoc(cs.take(k as int), cs[k as int], options.for_display);
                assert(out@ =~= join_components(cs.take(k + 1), options.for_display));
            }
            k += 1;
        }
        proof {
            assert(cs.take(cs.len() as int) =~= cs);
        }
        let include_realm: bool = match options.realm {
            PrincipalRealmDisplayMode::Always => true,
            PrincipalRealmDisplayMode::IfForeign => {
                match self.ctx.default_realm_bytes() {
                    Some(d) => !crate::bytes_equal(d, &self.realm),
                    None => true,
                }
            },
            PrincipalRealmDisplayMode::Never => false,
        };
        proof {
            assert(include_realm == realm_included(
                options.realm, self.realm@, self.ctx.spec_default_realm()));
        }
        if include_realm {
            out.push(REALM_MARKER);
            push_quoted(&mut out, &self.realm, options.for_display);
        }
        out
    }
}

/// Parsing never yields an empty component list.
proof fn lemma_parse_name_components_nonempty(t: Seq<u8>)
    ensures
        parse_name(t) matches Some(p) ==> p.components.len() >= 1,
    decreases t.len(),
{
    if t.len() == 0 {
    } else if t[0] == QUOTE {
        if t.len() > 1 {
            lemma_parse_name_components_nonempty(t.skip(2));
        }
    } else if t[0] == SEPARATOR {
        lemma_parse_name_components_nonempty(t.skip(1));
    } else if t[0] == REALM_MARKER {
    } else {
        lemma_parse_name_components_nonempty(t.skip(1));
    }
}

} // verus!
