//! sitemap.xml generation: one `<url>` entry per page, with its optional
//! last-modified stamp, change frequency, priority and alternate-language
//! links, wrapped in the standard `<urlset>` envelope.

use vstd::prelude::*;

verus! {

use vstd::string::StrSliceExecFns;
use vstd::string::StringExecFns;
use crate::text::spec_digit;
use crate::text::digit_str;

/// How often a page is expected to change.
#[derive(Clone, Copy, PartialEq, Eq, Structural)]
pub enum ChangeFrequency {
    Always,
    Hourly,
    Daily,
    Weekly,
    Monthly,
    Yearly,
    Never,
}

/// The lowercase keyword of a change frequency.
pub open spec fn spec_changefreq_text(f: ChangeFrequency) -> Seq<char> {
    match f {
        ChangeFrequency::Always => "always"@,
        ChangeFrequency::Hourly => "hourly"@,
        ChangeFrequency::Daily => "daily"@,
        ChangeFrequency::Weekly => "weekly"@,
        ChangeFrequency::Monthly => "monthly"@,
        ChangeFrequency::Yearly => "yearly"@,
        ChangeFrequency::Never => "never"@,
    }
}

impl ChangeFrequency {
    /// The keyword written into the sitemap.
    pub fn as_text(&self) -> (r: String)
        ensures
            r@ == spec_changefreq_text(*self),
    {
        match self {
            ChangeFrequency::Always => String::from_str("always"),
            ChangeFrequency::Hourly => String::from_str("hourly"),
            ChangeFrequency::Daily => String::from_str("daily"),
            ChangeFrequency::Weekly => String::from_str("weekly"),
            ChangeFrequency::Monthly => String::from_str("monthly"),
            ChangeFrequency::Yearly => String::from_str("yearly"),
            ChangeFrequency::Never => String::from_str("never"),
        }
    }
}

/// An alternate language version of a page.
pub struct AlternateLink {
    pub url: String,
    pub lang: String,
}

/// One sitemap entry. The priority is kept in tenths, zero through ten, so
/// that its one-decimal spelling is plain data.
pub struct SitemapXmlNode {
    pub loc: String,
    pub lastmod: Option<String>,
    pub changefreq: Option<ChangeFrequency>,
    pub priority_tenths: Option<u8>,
    pub alternates: Vec<AlternateLink>,
}

/// The one-decimal spelling of a priority in tenths, `1.0` at the top.
pub open spec fn spec_priority_text(tenths: u8) -> Seq<char> {
    if tenths >= 10 {
        "1.0"@
    } else {
        "0."@ + seq![spec_digit(tenths as nat)]
    }
}

/// The alternate-link lines of an entry.
pub open spec fn spec_alternate_lines(alts: Seq<AlternateLink>) -> Seq<char>
    decreases alts.len(),
{
    if alts.len() == 0 {
        Seq::empty()
    } else {
        "  <xhtml:link rel=\"alternate\" hreflang=\""@ + alts[0].lang@ + "\" href=\""@
            + alts[0].url@ + "\"/>\n"@ + spec_alternate_lines(alts.drop_first())
    }
}

/// The `<url>` element of one entry.
pub open spec fn spec_entry_xml(node: SitemapXmlNode) -> Seq<char> {
    "<url>\n"@ + "  <loc>"@ + node.loc@ + "</loc>\n"@ + (match node.lastmod {
        Some(lm) => "  <lastmod>"@ + lm@ + "</lastmod>\n"@,
        None => Seq::<char>::empty(),
    }) + (match node.changefreq {
        Some(f) => "  <changefreq>"@ + spec_changefreq_text(f) + "</changefreq>\n"@,
        None => Seq::<char>::empty(),
    }) + (match node.priority_tenths {
        Some(t) => "  <priority>"@ + spec_priority_text(t) + "</priority>\n"@,
        None => Seq::<char>::empty(),
    }) + spec_alternate_lines(node.alternates@) + "</url>"@
}

/// The whole sitemap document for a list of entries.
pub open spec fn spec_sitemap_xml(nodes: Seq<SitemapXmlNode>) -> Seq<char>
    decreases nodes.len(),
{
    if nodes.len() == 0 {
        Seq::empty()
    } else {
        spec_entry_xml(nodes[0]) + spec_sitemap_xml(nodes.drop_first())
    }
}

impl SitemapXmlNode {
    /// An entry holding only its location.
    pub fn new(loc: String) -> (r: SitemapXmlNode)
        ensures
            r.loc == loc,
            r.lastmod is None,
            r.changefreq is None,
            r.priority_tenths is None,
            r.alternates@.len() == 0,
    {
        SitemapXmlNode {
            loc,
            lastmod: None,
            changefreq: None,
            priority_tenths: None,
            alternates: Vec::new(),
        }
    }

    /// The entry with a last-modified stamp.
    pub fn with_lastmod(self, lastmod: String) -> (r: SitemapXmlNode)
        ensures
            r == (SitemapXmlNode { lastmod: Some(lastmod), ..self }),
    {
        SitemapXmlNode { lastmod: Some(lastmod), ..self }
    }

    /// The entry with a change frequency.
    pub fn with_changefreq(self, changefreq: ChangeFrequency) -> (r: SitemapXmlNode)
        ensures
            r == (SitemapXmlNode { changefreq: Some(changefreq), ..self }),
    {
        SitemapXmlNode { changefreq: Some(changefreq), ..self }
    }

    /// The entry with a priority in tenths, clamped to the top value of ten.
    pub fn with_priority(self, tenths: u8) -> (r: SitemapXmlNode)
        ensures
            r == (SitemapXmlNode {
                priority_tenths: Some(if tenths > 10 {
                    10u8
                } else {
                    tenths
                }),
                ..self
            }),
    {
        let t = if tenths > 10 {
            10
        } else {
            tenths
        };
        SitemapXmlNode { priority_tenths: Some(t), ..self }
    }

    /// The entry with one more alternate language version.
    pub fn add_alternate(self, url: String, lang: String) -> (r: SitemapXmlNode)
        ensures
            r.loc == self.loc,
            r.lastmod == self.lastmod,
            r.changefreq == self.changefreq,
            r.priority_tenths == self.priority_tenths,
            r.alternates@ == self.alternates@.push(AlternateLink { url, lang }),
    {
        let mut s = self;
        s.alternates.push(AlternateLink { url, lang });
        s
    }

    /// An entry for an output file: the site URL and the file path joined
    /// with one slash, stamped with the given time, or with the current
    /// time when none is given.
    pub fn from_file(file_path: &str, site_url: &str, lastmod: Option<String>) -> (r:
        SitemapXmlNode)
        ensures
            r.loc@ == crate::text::spec_trim_end_char(site_url@, '/') + "/"@
                + crate::text::spec_trim_start_char(file_path@, '/'),
            lastmod matches Some(lm) ==> r.lastmod == Some(lm),
            r.changefreq is None,
            r.priority_tenths is None,
            r.alternates@.len() == 0,
    {
        let mut loc = crate::text::trim_end_char(site_url, '/');
        loc.append("/");
        let tail = crate::text::trim_start_char(file_path, '/');
        loc.append(tail.as_str());
        let lm = match lastmod {
            Some(lm) => lm,
            None => crate::wrappers::utc_now_rfc3339(),
        };
        SitemapXmlNode::new(loc).with_lastmod(lm)
    }

    /// This entry's `<url>` element.
    #[verifier::rlimit(100)]
    pub fn to_xml(&self) -> (r: String)
        ensures
            r@ == spec_entry_xml(*self),
    {
        let mut xml = String::from_str("<url>\n");
        xml.append("  <loc>");
        xml.append(self.loc.as_str());
        xml.append("</loc>\n");
        match &self.lastmod {
            Some(lm) => {
                xml.append("  <lastmod>");
                xml.append(lm.as_str());
                xml.append("</lastmod>\n");
            },
            None => {},
        }
        match &self.changefreq {
            Some(f) => {
                xml.append("  <changefreq>");
                let t = f.as_text();
                xml.append(t.as_str());
                xml.append("</changefreq>\n");
            },
            None => {},
        }
        match self.priority_tenths {
            Some(t) => {
                xml.append("  <priority>");
                if t >= 10 {
                    xml.append("1.0");
                } else {
                    xml.append("0.");
                    xml.append(digit_str(t as u32));
                }
                xml.append("</priority>\n");
            },
            None => {},
        }
        assert(xml@ =~= "<url>\n"@ + "  <loc>"@ + self.loc@ + "</loc>\n"@ + (match self.lastmod {
            Some(lm) => "  <lastmod>"@ + lm@ + "</lastmod>\n"@,
            None => Seq::<char>::empty(),
        }) + (match self.changefreq {
            Some(f) => "  <changefreq>"@ + spec_changefreq_text(f) + "</changefreq>\n"@,
            None => Seq::<char>::empty(),
        }) + (match self.priority_tenths {
            Some(t) => "  <priority>"@ + spec_priority_text(t) + "</priority>\n"@,
            None => Seq::<char>::empty(),
        }));
        let ghost before_alts = xml@;
        let n = self.alternates.len();
        let mut i: usize = 0;
        assert(spec_alternate_lines(self.alternates@.subrange(0, 0)) =~= Seq::<char>::empty());
        while i < n
            invariant
                n == self.alternates@.len(),
                i <= n,
                xml@ == before_alts + spec_alternate_lines(self.alternates@.subrange(0, i as int)),
            decreases n - i,
        {
            let alt = &self.alternates[i];
            xml.append("  <xhtml:link rel=\"alternate\" hreflang=\"");
            xml.append(alt.lang.as_str());
            xml.append("\" href=\"");
            xml.append(alt.url.as_str());
            xml.append("\"/>\n");
            proof {
                lemma_alternate_lines_snoc(self.alternates@, i as int);
            }
            i += 1;
        }
        assert(self.alternates@.subrange(0, n as int) =~= self.alternates@);
        xml.append("</url>");
        assert(xml@ =~= spec_entry_xml(*self));
        xml
    }

    /// The whole sitemap document, entries in order, inside the `<urlset>`
    /// envelope.
    pub fn generate_sitemap_xml(nodes: &Vec<SitemapXmlNode>) -> (r: String)
        ensures
            r@ == "<?xml version=\"1.0\" encoding=\"UTF-8\"?>"@
                + "<urlset xmlns=\"http://www.sitemaps.org/schemas/sitemap/0.9\">"@
                + spec_sitemap_xml(nodes@) + "</urlset>"@,
    {
        let mut s = String::from_str("<?xml version=\"1.0\" encoding=\"UTF-8\"?>");
        s.append("<urlset xmlns=\"http://www.sitemaps.org/schemas/sitemap/0.9\">");
        let ghost header = s@;
        let n = nodes.len();
        let mut i: usize = 0;
        assert(spec_sitemap_xml(nodes@.subrange(0, 0)) =~= Seq::<char>::empty());
        while i < n
            invariant
                n == nodes@.len(),
                i <= n,
                s@ == header + spec_sitemap_xml(nodes@.subrange(0, i as int)),
            decreases n - i,
        {
            let x = nodes[i].to_xml();
            s.append(x.as_str());
            proof {
                lemma_sitemap_xml_snoc(nodes@, i as int);
            }
            i += 1;
        }
        assert(nodes@.subrange(0, n as int) =~= nodes@);
        s.append("</urlset>");
        s
    }
}

/// Splitting the last alternate off the lines.
proof fn lemma_alternate_lines_snoc(alts: Seq<AlternateLink>, i: int)
    requires
        0 <= i < alts.len(),
    ensures
        spec_alternate_lines(alts.subrange(0, i + 1)) == spec_alternate_lines(
            alts.subrange(0, i),
        ) + ("  <xhtml:link rel=\"alternate\" hreflang=\""@ + alts[i].lang@ + "\" href=\""@
            + alts[i].url@ + "\"/>\n"@),
    decreases i,
{
    let a = alts.subrange(0, i + 1);
    let b = alts.subrange(0, i);
    if i == 0 {
        assert(a.drop_first() =~= Seq::<AlternateLink>::empty());
        assert(b =~= Seq::<AlternateLink>::empty());
        assert(spec_alternate_lines(a) =~= spec_alternate_lines(b) + (
        "  <xhtml:link rel=\"alternate\" hreflang=\""@ + alts[0].lang@ + "\" href=\""@
            + alts[0].url@ + "\"/>\n"@));
    } else {
        lemma_alternate_lines_snoc(alts.drop_first(), i - 1);
        assert(a.drop_first() =~= alts.drop_first().subrange(0, i));
        assert(b.drop_first() =~= alts.drop_first().subrange(0, i - 1));
        assert(a[0] == alts[0] && b[0] == alts[0]);
        assert(alts.drop_first()[i - 1] == alts[i]);
    }
}

/// Splitting the last entry off the document body.
proof fn lemma_sitemap_xml_snoc(nodes: Seq<SitemapXmlNode>, i: int)
    requires
        0 <= i < nodes.len(),
    ensures
        spec_sitemap_xml(nodes.subrange(0, i + 1)) == spec_sitemap_xml(nodes.subrange(0, i))
            + spec_entry_xml(nodes[i]),
    decreases i,
{
    let a = nodes.subrange(0, i + 1);
    let b = nodes.subrange(0, i);
    if i == 0 {
        assert(a.drop_first() =~= Seq::<SitemapXmlNode>::empty());
        assert(b =~= Seq::<SitemapXmlNode>::empty());
        assert(spec_sitemap_xml(a) =~= spec_sitemap_xml(b) + spec_entry_xml(nodes[0]));
    } else {
        lemma_sitemap_xml_snoc(nodes.drop_first(), i - 1);
        assert(a.drop_first() =~= nodes.drop_first().subrange(0, i));
        assert(b.drop_first() =~= nodes.drop_first().subrange(0, i - 1));
        assert(a[0] == nodes[0] && b[0] == nodes[0]);
        assert(nodes.drop_first()[i - 1] == nodes[i]);
    }
}

} // verus!
