//! Localised messages: a table per language, looked up by key, with `{0}`,
//! `{1}`, ... placeholders filled in by position.

use vstd::prelude::*;
use crate::i18n_table::{build_en_table, build_zh_table, en_table, pairs_view, zh_table};
use crate::text::{chars_of, decimal, dec_digits, owned, replace_all, replaced, same_text};

verus! {

/// Translations by language code, then by message key.
pub struct I18n {
    translations: Vec<(String, Vec<(String, String)>)>,
    current_lang: String,
}

/// The last entry of `tab` with key `key` (later entries replace earlier ones).
pub open spec fn lookup<V>(tab: Seq<(Seq<char>, V)>, key: Seq<char>) -> Option<V>
    decreases tab.len(),
{
    if tab.len() == 0 {
        None
    } else if tab.last().0 == key {
        Some(tab.last().1)
    } else {
        lookup(tab.drop_last(), key)
    }
}

/// `s` starts with `p`.
pub open spec fn starts_with(s: Seq<char>, p: Seq<char>) -> bool {
    p.len() <= s.len() && s.take(p.len() as int) == p
}

/// The language a requested language code selects: `zh` for codes
/// starting with `zh` and for `cn` and `chinese`; `en` otherwise.
pub open spec fn effective_lang(lang: Seq<char>) -> Seq<char> {
    if starts_with(lang, seq!['z', 'h']) || lang == seq!['c', 'n'] || lang == seq![
        'c',
        'h',
        'i',
        'n',
        'e',
        's',
        'e',
    ] {
        seq!['z', 'h']
    } else {
        seq!['e', 'n']
    }
}

/// The placeholder `{i}`.
pub open spec fn placeholder(i: nat) -> Seq<char> {
    seq!['{'] + dec_digits(i) + seq!['}']
}

/// `template` with `{0}` replaced by `args[0]`, then `{1}` by `args[1]`, and
/// so on, each replacement applied to the result of the previous ones.
pub open spec fn fill(template: Seq<char>, args: Seq<Seq<char>>) -> Seq<char>
    decreases args.len(),
{
    if args.len() == 0 {
        template
    } else {
        replaced(
            fill(template, args.drop_last()),
            placeholder((args.len() - 1) as nat),
            args.last(),
        )
    }
}

impl I18n {
    /// The tables as mathematical values: language code, then (key, text).
    pub closed spec fn tables(&self) -> Seq<(Seq<char>, Seq<(Seq<char>, Seq<char>)>)> {
        self.translations@.map_values(
            |e: (String, Vec<(String, String)>)| (e.0@, pairs_view(e.1@)),
        )
    }

    /// The language in use.
    pub closed spec fn lang(&self) -> Seq<char> {
        self.current_lang@
    }

    /// The text for `key` in the language in use, or `key` itself when the
    /// table has no such entry.
    pub open spec fn text_for(&self, key: Seq<char>) -> Seq<char> {
        match lookup(self.tables(), self.lang()) {
            Some(tab) => match lookup(tab, key) {
                Some(v) => v,
                None => key,
            },
            None => key,
        }
    }

    /// Messages in the language `lang` selects (see `effective_lang`).
    pub fn new(lang: &str) -> (r: Self)
        ensures
            r.lang() == effective_lang(lang@),
            r.tables() == seq![(seq!['e', 'n'], en_table()), (seq!['z', 'h'], zh_table())],
    {
        let mut translations: Vec<(String, Vec<(String, String)>)> = Vec::new();
        let en = build_en_table();
        let zh = build_zh_table();
        let mut en_code = String::new();
        crate::text::push_char(&mut en_code, 'e');
        crate::text::push_char(&mut en_code, 'n');
        let mut zh_code = String::new();
        crate::text::push_char(&mut zh_code, 'z');
        crate::text::push_char(&mut zh_code, 'h');
        translations.push((en_code, en));
        translations.push((zh_code, zh));
        let cs = chars_of(lang);
        let is_zh = (cs.len() >= 2 && cs[0] == 'z' && cs[1] == 'h') || same_text(lang, "cn")
            || same_text(lang, "chinese");
        proof {
            reveal_strlit("cn");
            reveal_strlit("chinese");
            assert("cn"@ =~= seq!['c', 'n']);
            assert("chinese"@ =~= seq!['c', 'h', 'i', 'n', 'e', 's', 'e']);
            if cs.len() >= 2 {
                assert(cs@.take(2) =~= seq![cs@[0], cs@[1]]);
            }
        }
        let current_lang = if is_zh {
            let mut c = String::new();
            crate::text::push_char(&mut c, 'z');
            crate::text::push_char(&mut c, 'h');
            assert(c@ =~= seq!['z', 'h']);
            c
        } else {
            let mut c = String::new();
            crate::text::push_char(&mut c, 'e');
            crate::text::push_char(&mut c, 'n');
            assert(c@ =~= seq!['e', 'n']);
            c
        };
        assert(current_lang@ =~= effective_lang(lang@));
        let r = I18n { translations, current_lang };
        assert(en_code@ =~= seq!['e', 'n']);
        assert(zh_code@ =~= seq!['z', 'h']);
        assert(r.tables()[0] == (seq!['e', 'n'], en_table()));
        assert(r.tables()[1] == (seq!['z', 'h'], zh_table()));
        assert(r.tables() =~= seq![(seq!['e', 'n'], en_table()), (seq!['z', 'h'], zh_table())]);
        r
    }

    /// The text for `key` in the language in use; the key itself when
    /// there is none.
    pub fn t(&self, key: &str) -> (r: String)
        ensures
            r@ == self.text_for(key@),
    {
        let mut i = self.translations.len();
        assert(self.tables().take(i as int) =~= self.tables());
        while i > 0
            invariant
                i <= self.translations@.len(),
                lookup(self.tables(), self.lang()) == lookup(self.tables().take(i as int), self.lang()),
            decreases i,
        {
            let ghost pre = self.tables().take(i as int);
            assert(pre.last() == self.tables()[i - 1]);
            assert(pre.drop_last() =~= self.tables().take(i - 1));
            if same_text(self.translations[i - 1].0.as_str(), self.current_lang.as_str()) {
                let tab = &self.translations[i - 1].1;
                let ghost tv = pairs_view(tab@);
                assert(tv == self.tables()[i - 1].1);
                let mut j = tab.len();
                assert(lookup(self.tables(), self.lang()) == Some(tv));
                assert(tv.take(j as int) =~= tv);
                while j > 0
                    invariant
                        j <= tab@.len(),
                        tv == pairs_view(tab@),
                        lookup(self.tables(), self.lang()) == Some(tv),
                        lookup(tv, key@) == lookup(tv.take(j as int), key@),
                    decreases j,
                {
                    let ghost pre2 = tv.take(j as int);
                    assert(pre2.last() == tv[j - 1]);
                    assert(pre2.drop_last() =~= tv.take(j - 1));
                    if same_text(tab[j - 1].0.as_str(), key) {
                        assert(lookup(tv, key@) == Some(tab@[j - 1].1@));
                        let v = tab[j - 1].1.clone();
                        assert(v@ == tab@[j - 1].1@);
                        assert(v@ == self.text_for(key@));
                        return v;
                    }
                    j -= 1;
                }
                return owned(key);
            }
            i -= 1;
        }
        owned(key)
    }

    /// The text for `key` with `{0}`, `{1}`, ... replaced by `args` in turn.
    pub fn t_format(&self, key: &str, args: &[&str]) -> (r: String)
        ensures
            r@ == fill(self.text_for(key@), args@.map_values(|a: &str| a@)),
    {
        let template = self.t(key);
        let mut result = template;
        let ghost views = args@.map_values(|a: &str| a@);
        let mut i: usize = 0;
        while i < args.len()
            invariant
                i <= args@.len(),
                views == args@.map_values(|a: &str| a@),
                result@ == fill(self.text_for(key@), views.take(i as int)),
            decreases args@.len() - i,
        {
            let mut pat = String::new();
            crate::text::push_char(&mut pat, '{');
            let digits = decimal(i as u64);
            crate::text::push_str(&mut pat, digits.as_str());
            crate::text::push_char(&mut pat, '}');
            proof {
                assert(pat@ =~= placeholder(i as nat));
                assert(views.take(i + 1).drop_last() =~= views.take(i as int));
            }
            result = replace_all(result.as_str(), pat.as_str(), args[i]);
            i += 1;
        }
        proof {
            assert(views.take(i as int) =~= views);
        }
        result
    }
}

} // verus!
