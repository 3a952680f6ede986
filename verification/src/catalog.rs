//! The catalog read surface: the product listing filter and the exact query
//! text and arguments it produces, plus the small request and settings
//! records of the admin surface.

use vstd::prelude::*;
use vstd::string::StringExecFns;

verus! {

/// The listing filter of the product catalog.
pub struct ProductFilter {
    /// Restrict to one category; the word "all" means no restriction.
    pub category_id: Option<String>,
    /// Substring to look for in the product's name or author.
    pub search: Option<String>,
    /// "price_asc" or "price_desc" for price order; anything else lists the
    /// newest first.
    pub sort: Option<String>,
}

/// Request body for creating a category.
pub struct CreateCategoryReq {
    pub name: String,
}

/// One row of the settings table.
pub struct SettingItem {
    pub id: String,
    pub value: Option<String>,
}

/// Request body for writing several settings at once.
pub struct UpdateSettingReq {
    pub settings: Vec<SettingItem>,
}

/// Settings are keyed by their id text, one row per key.
pub open spec fn unique_setting_ids(ss: Seq<SettingItem>) -> bool {
    forall|a: int, b: int| 0 <= a < b < ss.len() ==> ss[a].id@ != ss[b].id@
}

pub open spec fn has_setting(ss: Seq<SettingItem>, id: Seq<char>) -> bool {
    exists|i: int| 0 <= i < ss.len() && ss[i].id@ == id
}

pub open spec fn setting_idx(ss: Seq<SettingItem>, id: Seq<char>) -> int {
    choose|i: int| 0 <= i < ss.len() && ss[i].id@ == id
}

/// In a table with unique keys, the row holding `ss[i].id` is row `i`.
pub proof fn lemma_setting_idx_of(ss: Seq<SettingItem>, i: int)
    requires
        unique_setting_ids(ss),
        0 <= i < ss.len(),
    ensures
        has_setting(ss, ss[i].id@),
        setting_idx(ss, ss[i].id@) == i,
{
    let id = ss[i].id@;
    assert(has_setting(ss, id));
    let j = setting_idx(ss, id);
    if j != i {
        if j < i {
            assert(ss[j].id@ != ss[i].id@);
        } else {
            assert(ss[i].id@ != ss[j].id@);
        }
    }
}

/// One write: replace the value of the row with this key, or append the
/// row.
pub open spec fn upsert_setting(ss: Seq<SettingItem>, item: SettingItem) -> Seq<SettingItem> {
    if has_setting(ss, item.id@) {
        ss.update(setting_idx(ss, item.id@), item)
    } else {
        ss.push(item)
    }
}

/// All requested writes, in request order; a key written twice keeps the
/// later value.
pub open spec fn upserted_settings(ss: Seq<SettingItem>, items: Seq<SettingItem>) -> Seq<
    SettingItem,
>
    decreases items.len(),
{
    if items.len() == 0 {
        ss
    } else {
        upsert_setting(upserted_settings(ss, items.drop_last()), items.last())
    }
}

/// Index of the row with this key, if the table holds one.
fn find_setting(settings: &Vec<SettingItem>, id: &String) -> (r: Option<usize>)
    ensures
        match r {
            Some(i) => i < settings@.len() && settings@[i as int].id@ == id@,
            None => !has_setting(settings@, id@),
        },
{
    let n = settings.len();
    let mut i: usize = 0;
    while i < n
        invariant
            i <= n,
            n == settings@.len(),
            forall|j: int| 0 <= j < i ==> (#[trigger] settings@[j]).id@ != id@,
        decreases n - i,
    {
        if settings[i].id == *id {
            return Some(i);
        }
        i += 1;
    }
    None
}

/// Write every requested setting, keyed upsert by upsert, keeping one row
/// per key.
pub fn update_settings(settings: &mut Vec<SettingItem>, req: UpdateSettingReq)
    requires
        unique_setting_ids(old(settings)@),
    ensures
        final(settings)@ == upserted_settings(old(settings)@, req.settings@),
        unique_setting_ids(final(settings)@),
{
    let ghost pre = settings@;
    let n = req.settings.len();
    let mut k: usize = 0;
    while k < n
        invariant
            k <= n,
            n == req.settings@.len(),
            settings@ == upserted_settings(pre, req.settings@.take(k as int)),
            unique_setting_ids(settings@),
        decreases n - k,
    {
        let item = SettingItem {
            id: req.settings[k].id.clone(),
            value: match &req.settings[k].value {
                Some(v) => Some(v.clone()),
                None => None,
            },
        };
        proof {
            assert(item == req.settings@[k as int]);
        }
        match find_setting(settings, &item.id) {
            Some(i) => {
                proof {
                    lemma_setting_idx_of(settings@, i as int);
                }
                settings[i] = item;
            },
            None => {
                settings.push(item);
            },
        }
        proof {
            let t = req.settings@.take(k + 1);
            assert(t.drop_last() =~= req.settings@.take(k as int));
            assert(t.last() == req.settings@[k as int]);
        }
        k += 1;
    }
    proof {
        assert(req.settings@.take(n as int) =~= req.settings@);
    }
}

/// The setting keys that make up the public payment configuration.
pub open spec fn is_payment_key(k: Seq<char>) -> bool {
    ||| k == "bank_bin"@
    ||| k == "bank_number"@
    ||| k == "bank_name"@
    ||| k == "bank_template"@
    ||| k == "site_name"@
    ||| k == "hotline"@
    ||| k == "contact_email"@
}

/// The settings rows carrying a payment key, in table order.
pub open spec fn payment_rows(ss: Seq<SettingItem>) -> Seq<SettingItem>
    decreases ss.len(),
{
    if ss.len() == 0 {
        Seq::empty()
    } else {
        let rest = payment_rows(ss.drop_last());
        if is_payment_key(ss.last().id@) {
            rest.push(ss.last())
        } else {
            rest
        }
    }
}

/// The public payment configuration: the settings rows whose key belongs
/// to it, exactly as stored.
pub fn get_payment_config(settings: &Vec<SettingItem>) -> (r: Vec<SettingItem>)
    ensures
        r@ == payment_rows(settings@),
{
    let n = settings.len();
    let mut r: Vec<SettingItem> = Vec::new();
    let mut i: usize = 0;
    while i < n
        invariant
            i <= n,
            n == settings@.len(),
            r@ == payment_rows(settings@.take(i as int)),
        decreases n - i,
    {
        let id = &settings[i].id;
        let wanted = *id == String::from_str("bank_bin") || *id == String::from_str("bank_number")
            || *id == String::from_str("bank_name") || *id == String::from_str("bank_template")
            || *id == String::from_str("site_name") || *id == String::from_str("hotline") || *id
            == String::from_str("contact_email");
        if wanted {
            let row = SettingItem {
                id: settings[i].id.clone(),
                value: match &settings[i].value {
                    Some(v) => Some(v.clone()),
                    None => None,
                },
            };
            proof {
                assert(row == settings@[i as int]);
            }
            r.push(row);
        }
        proof {
            let t = settings@.take(i + 1);
            assert(t.drop_last() =~= settings@.take(i as int));
            assert(t.last() == settings@[i as int]);
        }
        i += 1;
    }
    proof {
        assert(settings@.take(n as int) =~= settings@);
    }
    r
}

/// The category restriction the filter asks for, if any.
pub open spec fn filter_category(f: ProductFilter) -> Option<Seq<char>> {
    match f.category_id {
        Some(c) => if c@ == "all"@ {
            None
        } else {
            Some(c@)
        },
        None => None,
    }
}

/// The search term the filter asks for, if any.
pub open spec fn filter_search(f: ProductFilter) -> Option<Seq<char>> {
    match f.search {
        Some(s) => if s@.len() == 0 {
            None
        } else {
            Some(s@)
        },
        None => None,
    }
}

/// The sort key, or empty where none was given.
pub open spec fn sort_key(f: ProductFilter) -> Seq<char> {
    match f.sort {
        Some(s) => s@,
        None => Seq::empty(),
    }
}

/// The ORDER BY clause the filter selects: by effective selling price where
/// asked, else newest first.
pub open spec fn products_query_sort(f: ProductFilter) -> Seq<char> {
    if sort_key(f) == "price_asc"@ {
        " ORDER BY COALESCE(p.sale_price, p.price) ASC"@
    } else if sort_key(f) == "price_desc"@ {
        " ORDER BY COALESCE(p.sale_price, p.price) DESC"@
    } else {
        " ORDER BY p.created_at DESC"@
    }
}

/// The complete listing query text for one filter.
pub open spec fn products_query_text(f: ProductFilter) -> Seq<char> {
    "SELECT p.id, p.category_id, c.name as category_name, p.name, p.author, p.publisher, p.publication_year, p.price, p.sale_price, p.stock, CASE WHEN JSON_VALID(p.images) THEN JSON_UNQUOTE(JSON_EXTRACT(p.images, '$[0]')) ELSE p.image END as image, p.images, p.description, p.specs, p.rating, p.review_count FROM products p LEFT JOIN categories c ON p.category_id = c.id WHERE p.is_deleted = 0"@
        + (if filter_category(f) is Some {
        " AND p.category_id = ?"@
    } else {
        Seq::empty()
    }) + (if filter_search(f) is Some {
        " AND (p.name LIKE ? OR p.author LIKE ?)"@
    } else {
        Seq::empty()
    }) + products_query_sort(f)
}

/// A LIKE pattern matching the term anywhere.
pub open spec fn like_pattern(s: Seq<char>) -> Seq<char> {
    "%"@ + s + "%"@
}

/// The bind arguments of the listing query, in placeholder order.
pub open spec fn products_query_args(f: ProductFilter) -> Seq<Seq<char>> {
    (match filter_category(f) {
        Some(c) => seq![c],
        None => Seq::empty(),
    }) + (match filter_search(f) {
        Some(s) => seq![like_pattern(s), like_pattern(s)],
        None => Seq::empty(),
    })
}

/// Build the product listing query: the SQL text with one placeholder per
/// restriction, and the arguments that fill them, in order.
pub fn build_products_query(f: &ProductFilter) -> (r: (String, Vec<String>))
    ensures
        r.0@ == products_query_text(*f),
        r.1.deep_view() == products_query_args(*f),
{
    let mut sql = String::from_str(
        "SELECT p.id, p.category_id, c.name as category_name, p.name, p.author, p.publisher, p.publication_year, p.price, p.sale_price, p.stock, CASE WHEN JSON_VALID(p.images) THEN JSON_UNQUOTE(JSON_EXTRACT(p.images, '$[0]')) ELSE p.image END as image, p.images, p.description, p.specs, p.rating, p.review_count FROM products p LEFT JOIN categories c ON p.category_id = c.id WHERE p.is_deleted = 0",
    );
    let mut args: Vec<String> = Vec::new();
    let ghost g_base = sql@;
    match &f.category_id {
        Some(c) => {
            let all = String::from_str("all");
            if !(*c == all) {
                sql.append(" AND p.category_id = ?");
                args.push(c.clone());
            }
        },
        None => {},
    }
    proof {
        assert(sql@ =~= g_base + (if filter_category(*f) is Some {
            " AND p.category_id = ?"@
        } else {
            Seq::empty()
        }));
    }
    let ghost g_cat = sql@;
    match &f.search {
        Some(s) => {
            if !s.as_str().is_empty() {
                sql.append(" AND (p.name LIKE ? OR p.author LIKE ?)");
                let mut pat = String::from_str("%");
                pat.append(s.as_str());
                pat.append("%");
                let pat2 = pat.clone();
                args.push(pat);
                args.push(pat2);
            }
        },
        None => {},
    }
    proof {
        assert(sql@ =~= g_cat + (if filter_search(*f) is Some {
            " AND (p.name LIKE ? OR p.author LIKE ?)"@
        } else {
            Seq::empty()
        }));
        reveal_strlit("price_asc");
        reveal_strlit("price_desc");
    }
    let ghost g_search = sql@;
    match &f.sort {
        Some(s) => {
            let asc = String::from_str("price_asc");
            let desc = String::from_str("price_desc");
            if *s == asc {
                proof {
                    assert(sort_key(*f) == "price_asc"@);
                    assert(products_query_sort(*f)
                        == " ORDER BY COALESCE(p.sale_price, p.price) ASC"@);
                }
                sql.append(" ORDER BY COALESCE(p.sale_price, p.price) ASC");
            } else if *s == desc {
                proof {
                    assert(!(sort_key(*f) == "price_asc"@));
                    assert(sort_key(*f) == "price_desc"@);
                    assert(products_query_sort(*f)
                        == " ORDER BY COALESCE(p.sale_price, p.price) DESC"@);
                }
                sql.append(" ORDER BY COALESCE(p.sale_price, p.price) DESC");
            } else {
                proof {
                    assert(!(sort_key(*f) == "price_asc"@) && !(sort_key(*f) == "price_desc"@));
                    assert(products_query_sort(*f) == " ORDER BY p.created_at DESC"@);
                }
                sql.append(" ORDER BY p.created_at DESC");
            }
        },
        None => {
            proof {
                assert(sort_key(*f) == Seq::<char>::empty());
                assert(products_query_sort(*f) == " ORDER BY p.created_at DESC"@);
            }
            sql.append(" ORDER BY p.created_at DESC");
        },
    }
    proof {
        assert(sql@ =~= g_search + products_query_sort(*f));
        assert(sql@ =~= products_query_text(*f)) by {
            assert(products_query_text(*f) == "SELECT p.id, p.category_id, c.name as category_name, p.name, p.author, p.publisher, p.publication_year, p.price, p.sale_price, p.stock, CASE WHEN JSON_VALID(p.images) THEN JSON_UNQUOTE(JSON_EXTRACT(p.images, '$[0]')) ELSE p.image END as image, p.images, p.description, p.specs, p.rating, p.review_count FROM products p LEFT JOIN categories c ON p.category_id = c.id WHERE p.is_deleted = 0"@
                + (if filter_category(*f) is Some {
                " AND p.category_id = ?"@
            } else {
                Seq::empty()
            }) + (if filter_search(*f) is Some {
                " AND (p.name LIKE ? OR p.author LIKE ?)"@
            } else {
                Seq::empty()
            }) + products_query_sort(*f));
        }
        assert(args.deep_view() =~~= products_query_args(*f));
    }
    (sql, args)
}

} // verus!
