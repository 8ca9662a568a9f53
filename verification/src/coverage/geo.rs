//! Geographic profile layouts as read from the profile files, and the rules
//! they must keep. A layout number is held as what its rules read of it: the
//! text it prints as and how it compares with zero.
use crate::coverage::position::{regex_compiles, regex_is_match, regex_matches};
use crate::coverage::profile_raw::{
    format_labels, label_lines_error, page_problem, tabbed_problem, validate_tabs, DirectAccessPageRaw,
    TabRaw,
};
use crate::coverage::strings_view;
use crate::coverage::{CoverageError, CoverageErrorView, ValidationError, ValidationErrorView, Validator};
use crate::ids::ProfileId;
use vstd::prelude::*;

verus! {

/// The regular expression that a container's height or width must match: a
/// whole number followed by `%` or `rem`.
pub const SIZE_PATTERN: &'static str = "^\\d+(%|rem)$";

/// Whether `s` is a size of the form the layout accepts.
pub open spec fn size_format_ok(s: Seq<char>) -> bool {
    regex_compiles(SIZE_PATTERN@) && regex_is_match(SIZE_PATTERN@, s)
}

/// A number of a layout: the text it prints as, whether it is below zero, and
/// whether it is at most zero (a number that is no number is neither).
#[derive(Debug)]
pub struct GeoNumber {
    pub text: String,
    pub below_zero: bool,
    pub at_most_zero: bool,
}

/// A container of a geographic layout, as read: optional sizes and spacings,
/// and its children.
#[derive(Debug)]
pub struct GeoPageContainerRaw {
    pub height: Option<String>,
    pub width: Option<String>,
    pub padding: Option<GeoNumber>,
    pub padding_left: Option<GeoNumber>,
    pub padding_right: Option<GeoNumber>,
    pub padding_top: Option<GeoNumber>,
    pub padding_bottom: Option<GeoNumber>,
    pub gap: Option<GeoNumber>,
    pub children: Vec<GeoNodeRaw>,
}

/// A child of a container, as read.
#[derive(Debug)]
pub enum GeoNodeRaw {
    Container(GeoPageContainerRaw),
    Button(GeoPageButtonRaw),
    Divider(GeoPageDividerRaw),
}

/// A button of a layout, as read: its label lines, its size and the page it
/// opens, if any.
#[derive(Debug)]
pub struct GeoPageButtonRaw {
    pub label: Vec<String>,
    pub size: GeoNumber,
    pub page: Option<DirectAccessPageRaw>,
}

/// A divider of a layout, as read.
#[derive(Debug)]
pub struct GeoPageDividerRaw {
    pub thickness: GeoNumber,
    pub color: String,
}

/// The layout of a profile, as read.
#[derive(Debug)]
pub enum ProfileTypeRaw {
    Geo(GeoPageContainerRaw),
    Tabbed { tabs: Vec<TabRaw> },
}

/// A profile, as read.
#[derive(Debug)]
pub struct ProfileRaw {
    pub id: ProfileId,
    pub profile_type: ProfileTypeRaw,
}

/// The error of a number of the field `field`, printed as `value`, below
/// its minimum of zero.
pub open spec fn below_zero_error(field: Seq<char>, value: Seq<char>) -> ValidationErrorView {
    ValidationErrorView::OutOfRange { field, value, min: "0"@, max: None }
}

/// The problem of the optional size `v` of the field `field`, if any.
pub open spec fn size_problem(field: Seq<char>, v: Option<String>) -> Option<ValidationErrorView> {
    match v {
        Some(s) => if size_format_ok(s@) {
            None
        } else {
            Some(
                ValidationErrorView::InvalidFormat {
                    field,
                    value: s@,
                    reason: "must either be provided as percentage or rem"@,
                },
            )
        },
        None => None,
    }
}

/// The problem of the optional spacing `v` of the field `field`, if any: it
/// must not be below zero.
pub open spec fn spacing_problem(field: Seq<char>, v: Option<GeoNumber>) -> Option<ValidationErrorView> {
    match v {
        Some(n) => if n.below_zero {
            Some(below_zero_error(field, n.text@))
        } else {
            None
        },
        None => None,
    }
}

/// `a` where it is a problem, else `b`.
pub open spec fn first_problem(
    a: Option<ValidationErrorView>,
    b: Option<ValidationErrorView>,
) -> Option<ValidationErrorView> {
    if a is Some {
        a
    } else {
        b
    }
}

/// The first problem of the sizes and spacings of `c`, in the order height,
/// width, padding, left, right, top and bottom padding, gap.
pub open spec fn frame_problem(c: GeoPageContainerRaw) -> Option<ValidationErrorView> {
    first_problem(
        size_problem("height"@, c.height),
        first_problem(
            size_problem("width"@, c.width),
            first_problem(
                spacing_problem("padding"@, c.padding),
                first_problem(
                    spacing_problem("padding_left"@, c.padding_left),
                    first_problem(
                        spacing_problem("padding_right"@, c.padding_right),
                        first_problem(
                            spacing_problem("padding_top"@, c.padding_top),
                            first_problem(
                                spacing_problem("padding_bottom"@, c.padding_bottom),
                                spacing_problem("gap"@, c.gap),
                            ),
                        ),
                    ),
                ),
            ),
        ),
    )
}

/// The first rule that the container `c` breaks, if any: its sizes and
/// spacings, then at least one child, then each child in order.
pub open spec fn container_problem(c: GeoPageContainerRaw) -> Option<ValidationErrorView>
    decreases c,
{
    if frame_problem(c) is Some {
        frame_problem(c)
    } else if c.children@.len() == 0 {
        Some(ValidationErrorView::Empty { field: "children"@ })
    } else {
        nodes_problem(c.children@)
    }
}

/// The first rule that a node of `ns` breaks, if any.
pub open spec fn nodes_problem(ns: Seq<GeoNodeRaw>) -> Option<ValidationErrorView>
    decreases ns,
{
    if ns.len() == 0 {
        None
    } else {
        match node_problem(ns[0]) {
            Some(e) => Some(e),
            None => nodes_problem(ns.subrange(1, ns.len() as int)),
        }
    }
}

/// The first rule that the node `n` breaks, if any.
pub open spec fn node_problem(n: GeoNodeRaw) -> Option<ValidationErrorView>
    decreases n,
{
    match n {
        GeoNodeRaw::Container(c) => container_problem(c),
        GeoNodeRaw::Button(b) => button_problem(b),
        GeoNodeRaw::Divider(d) => divider_problem(d),
    }
}

/// The first rule that the button `b` breaks, if any: one to three label
/// lines, a size not below zero, and the page it opens.
pub open spec fn button_problem(b: GeoPageButtonRaw) -> Option<ValidationErrorView>
    decreases b,
{
    if b.label@.len() == 0 {
        Some(ValidationErrorView::Empty { field: "label"@ })
    } else if b.label@.len() > 3 {
        Some(label_lines_error(strings_view(b.label@)))
    } else if b.size.below_zero {
        Some(below_zero_error("size"@, b.size.text@))
    } else {
        match b.page {
            Some(p) => page_problem(p),
            None => None,
        }
    }
}

/// The first rule that the divider `d` breaks, if any: a thickness above
/// zero, and a color.
pub open spec fn divider_problem(d: GeoPageDividerRaw) -> Option<ValidationErrorView> {
    if d.thickness.at_most_zero {
        Some(below_zero_error("thickness"@, d.thickness.text@))
    } else if d.color@.len() == 0 {
        Some(ValidationErrorView::Empty { field: "color"@ })
    } else {
        None
    }
}

/// The first rule that the layout `t` breaks, if any.
pub open spec fn profile_type_problem(t: ProfileTypeRaw) -> Option<ValidationErrorView> {
    match t {
        ProfileTypeRaw::Geo(c) => container_problem(c),
        ProfileTypeRaw::Tabbed { tabs } => tabbed_problem(tabs@),
    }
}

/// The first rule that the profile `p` breaks, if any: an identifier, then
/// its layout.
pub open spec fn profile_problem(p: ProfileRaw) -> Option<ValidationErrorView> {
    if p.id@.len() == 0 {
        Some(ValidationErrorView::Empty { field: "id"@ })
    } else {
        profile_type_problem(p.profile_type)
    }
}

fn validation(e: ValidationError) -> (r: CoverageError)
    ensures
        r@ == CoverageErrorView::Validation(e@),
{
    CoverageError::Validation(e)
}

/// The error of a number below its minimum of zero.
fn below_zero(field: &str, value: &GeoNumber) -> (r: CoverageError)
    ensures
        r@ == CoverageErrorView::Validation(below_zero_error(field@, value.text@)),
{
    validation(
        ValidationError::OutOfRange {
            field: field.to_string(),
            value: value.text.clone(),
            min: "0".to_string(),
            max: None,
        },
    )
}

/// Checks the optional size `v` of the field `field`.
fn check_size(field: &str, v: &Option<String>) -> (r: Result<(), CoverageError>)
    ensures
        match size_problem(field@, *v) {
            None => r is Ok,
            Some(e) => r matches Err(err) && err@ == CoverageErrorView::Validation(e),
        },
{
    match v {
        Some(s) => {
            let matched = match regex_matches(SIZE_PATTERN, s.as_str()) {
                Some(b) => b,
                None => false,
            };
            if matched {
                Ok(())
            } else {
                Err(
                    validation(
                        ValidationError::InvalidFormat {
                            field: field.to_string(),
                            value: s.clone(),
                            reason: "must either be provided as percentage or rem".to_string(),
                        },
                    ),
                )
            }
        },
        None => Ok(()),
    }
}

/// Checks the optional spacing `v` of the field `field`.
fn check_spacing(field: &str, v: &Option<GeoNumber>) -> (r: Result<(), CoverageError>)
    ensures
        match spacing_problem(field@, *v) {
            None => r is Ok,
            Some(e) => r matches Err(err) && err@ == CoverageErrorView::Validation(e),
        },
{
    match v {
        Some(n) => if n.below_zero {
            Err(below_zero(field, n))
        } else {
            Ok(())
        },
        None => Ok(()),
    }
}

impl Validator for GeoPageDividerRaw {
    /// Checks the divider: a thickness above zero, and a color.
    fn validate(&self) -> (r: Result<(), CoverageError>)
        ensures
            match divider_problem(*self) {
                None => r is Ok,
                Some(e) => r matches Err(err) && err@ == CoverageErrorView::Validation(e),
            },
    {
        if self.thickness.at_most_zero {
            return Err(below_zero("thickness", &self.thickness));
        }
        if self.color.as_str().is_empty() {
            return Err(validation(ValidationError::Empty { field: "color".to_string() }));
        }
        Ok(())
    }
}

impl Validator for GeoPageButtonRaw {
    /// Checks the button: one to three label lines, a size not below zero,
    /// and the page it opens.
    fn validate(&self) -> (r: Result<(), CoverageError>)
        ensures
            match button_problem(*self) {
                None => r is Ok,
                Some(e) => r matches Err(err) && err@ == CoverageErrorView::Validation(e),
            },
        decreases *self,
    {
        if self.label.len() == 0 {
            return Err(validation(ValidationError::Empty { field: "label".to_string() }));
        }
        if self.label.len() > 3 {
            return Err(
                validation(
                    ValidationError::InvalidValue {
                        field: "label".to_string(),
                        value: format_labels(&self.label),
                        reason: "cannot have more than 3 lines".to_string(),
                    },
                ),
            );
        }
        if self.size.below_zero {
            return Err(below_zero("size", &self.size));
        }
        match &self.page {
            Some(p) => p.validate(),
            None => Ok(()),
        }
    }
}

impl Validator for GeoNodeRaw {
    /// Checks the node by its kind.
    fn validate(&self) -> (r: Result<(), CoverageError>)
        ensures
            match node_problem(*self) {
                None => r is Ok,
                Some(e) => r matches Err(err) && err@ == CoverageErrorView::Validation(e),
            },
        decreases *self,
    {
        match self {
            GeoNodeRaw::Container(c) => c.validate(),
            GeoNodeRaw::Button(b) => b.validate(),
            GeoNodeRaw::Divider(d) => d.validate(),
        }
    }
}

impl Validator for GeoPageContainerRaw {
    /// Checks the container: its sizes and spacings, at least one child, and
    /// each child in order.
    fn validate(&self) -> (r: Result<(), CoverageError>)
        ensures
            match container_problem(*self) {
                None => r is Ok,
                Some(e) => r matches Err(err) && err@ == CoverageErrorView::Validation(e),
            },
        decreases *self,
    {
        check_size("height", &self.height)?;
        check_size("width", &self.width)?;
        check_spacing("padding", &self.padding)?;
        check_spacing("padding_left", &self.padding_left)?;
        check_spacing("padding_right", &self.padding_right)?;
        check_spacing("padding_top", &self.padding_top)?;
        check_spacing("padding_bottom", &self.padding_bottom)?;
        check_spacing("gap", &self.gap)?;
        if self.children.len() == 0 {
            return Err(validation(ValidationError::Empty { field: "children".to_string() }));
        }
        let ghost ns = self.children@;
        let n = self.children.len();
        let mut i: usize = 0;
        assert(ns.subrange(0, n as int) =~= ns);
        while i < n
            invariant
                i <= n,
                n == ns.len(),
                ns == self.children@,
                container_problem(*self) == nodes_problem(ns.subrange(i as int, n as int)),
            decreases n - i,
        {
            let ghost rest = ns.subrange(i as int, n as int);
            assert(rest[0] == ns[i as int]);
            assert(rest.subrange(1, rest.len() as int) =~= ns.subrange(i + 1, n as int));
            proof {
                assert(decreases_to!(*self => self.children));
                assert(decreases_to!(self.children => self.children@));
                assert(decreases_to!(self.children@ => self.children@[i as int]));
            }
            match self.children[i].validate() {
                Ok(()) => {},
                Err(err) => {
                    return Err(err);
                },
            }
            i = i + 1;
        }
        assert(ns.subrange(n as int, n as int).len() == 0);
        Ok(())
    }
}

impl Validator for ProfileTypeRaw {
    /// Checks the layout: a geographic container, or the tabs of a tabbed
    /// profile.
    fn validate(&self) -> (r: Result<(), CoverageError>)
        ensures
            match profile_type_problem(*self) {
                None => r is Ok,
                Some(e) => r matches Err(err) && err@ == CoverageErrorView::Validation(e),
            },
    {
        match self {
            ProfileTypeRaw::Geo(container) => container.validate(),
            ProfileTypeRaw::Tabbed { tabs } => validate_tabs(tabs),
        }
    }
}

impl Validator for ProfileRaw {
    /// Checks the profile: an identifier, then its layout.
    fn validate(&self) -> (r: Result<(), CoverageError>)
        ensures
            match profile_problem(*self) {
                None => r is Ok,
                Some(e) => r matches Err(err) && err@ == CoverageErrorView::Validation(e),
            },
    {
        if self.id.as_str().is_empty() {
            return Err(validation(ValidationError::Empty { field: "id".to_string() }));
        }
        self.profile_type.validate()
    }
}

/// The pages that the buttons of the container `c` open, at any depth of
/// containers, in layout order.
pub open spec fn container_pages(c: GeoPageContainerRaw) -> Seq<DirectAccessPageRaw>
    decreases c,
{
    nodes_pages(c.children@)
}

/// The pages that the buttons of the nodes `ns` open, in order.
pub open spec fn nodes_pages(ns: Seq<GeoNodeRaw>) -> Seq<DirectAccessPageRaw>
    decreases ns,
{
    if ns.len() == 0 {
        Seq::empty()
    } else {
        node_pages(ns[0]) + nodes_pages(ns.subrange(1, ns.len() as int))
    }
}

/// The pages that the node `n` opens.
pub open spec fn node_pages(n: GeoNodeRaw) -> Seq<DirectAccessPageRaw>
    decreases n,
{
    match n {
        GeoNodeRaw::Container(c) => container_pages(c),
        GeoNodeRaw::Button(b) => match b.page {
            Some(p) => seq![p],
            None => Seq::empty(),
        },
        GeoNodeRaw::Divider(_) => Seq::empty(),
    }
}

/// The top pages of the layout `t`: those its buttons open, or those of its
/// tabs, in order.
pub open spec fn type_pages(t: ProfileTypeRaw) -> Seq<DirectAccessPageRaw> {
    match t {
        ProfileTypeRaw::Geo(c) => container_pages(c),
        ProfileTypeRaw::Tabbed { tabs } => tabs@.map_values(|t: TabRaw| t.page),
    }
}

/// Appends the pages of the node `n` to `out`.
fn add_node_pages(n: GeoNodeRaw, out: &mut Vec<DirectAccessPageRaw>)
    ensures
        final(out)@ == old(out)@ + node_pages(n),
    decreases n,
{
    match n {
        GeoNodeRaw::Container(c) => add_container_pages(c, out),
        GeoNodeRaw::Button(b) => match b.page {
            Some(p) => {
                out.push(p);
            },
            None => {
                assert(old(out)@ + Seq::<DirectAccessPageRaw>::empty() =~= old(out)@);
            },
        },
        GeoNodeRaw::Divider(_) => {
            assert(old(out)@ + Seq::<DirectAccessPageRaw>::empty() =~= old(out)@);
        },
    }
}

/// Appends the pages of the container `c` to `out`.
#[verifier::loop_isolation(false)]
fn add_container_pages(c: GeoPageContainerRaw, out: &mut Vec<DirectAccessPageRaw>)
    ensures
        final(out)@ == old(out)@ + container_pages(c),
    decreases c,
{
    let ghost c0 = c;
    let ghost ns = c.children@;
    let mut children = c.children;
    let ghost start = out@;
    let ghost mut k: int = 0;
    assert(ns.subrange(0, ns.len() as int) =~= ns);
    assert(start + Seq::<DirectAccessPageRaw>::empty() =~= start);
    while children.len() > 0
        invariant
            k + children@.len() == ns.len(),
            0 <= k,
            children@ == ns.subrange(k, ns.len() as int),
            ns == c0.children@,
            start + nodes_pages(ns) == out@ + nodes_pages(children@),
        decreases children@.len(),
    {
        let ghost rest = children@;
        assert(rest[0] == ns[k]);
        assert(rest.subrange(1, rest.len() as int) =~= ns.subrange(k + 1, ns.len() as int));
        let node = children.remove(0);
        assert(children@ =~= rest.subrange(1, rest.len() as int));
        let ghost before = out@;
        proof {
            assert(node == c0.children@[k]);
            assert(decreases_to!(c0 => c0.children));
            assert(decreases_to!(c0.children => c0.children@));
            assert(decreases_to!(c0.children@ => c0.children@[k]));
        }
        add_node_pages(node, out);
        assert(out@ + nodes_pages(children@) =~= before + nodes_pages(rest));
        proof {
            k = k + 1;
        }
    }
    assert(nodes_pages(children@) =~= Seq::<DirectAccessPageRaw>::empty());
    assert(out@ + Seq::<DirectAccessPageRaw>::empty() =~= out@);
}

/// The top pages of the layout `t`, in order: for a geographic layout those
/// that its buttons open, for a tabbed one those of its tabs. These are the
/// pages whose keys must call known stations.
pub fn profile_pages(t: ProfileTypeRaw) -> (r: Vec<DirectAccessPageRaw>)
    ensures
        r@ == type_pages(t),
{
    let ghost t0 = t;
    let mut out: Vec<DirectAccessPageRaw> = Vec::new();
    match t {
        ProfileTypeRaw::Geo(c) => {
            add_container_pages(c, &mut out);
            assert(out@ =~= type_pages(t0));
        },
        ProfileTypeRaw::Tabbed { tabs } => {
            let ghost ts = tabs@;
            let mut tabs = tabs;
            let ghost mut k: int = 0;
            while tabs.len() > 0
                invariant
                    k + tabs@.len() == ts.len(),
                    tabs@ == ts.subrange(k, ts.len() as int),
                    0 <= k,
                    out@ == ts.subrange(0, k).map_values(|t: TabRaw| t.page),
                decreases tabs@.len(),
            {
                let ghost rest = tabs@;
                assert(rest[0] == ts[k]);
                let tab = tabs.remove(0);
                assert(tabs@ =~= ts.subrange(k + 1, ts.len() as int));
                out.push(tab.page);
                assert(out@ =~= ts.subrange(0, k + 1).map_values(|t: TabRaw| t.page));
                proof {
                    k = k + 1;
                }
            }
            assert(ts.subrange(0, ts.len() as int) =~= ts);
        },
    }
    out
}

} // verus!
