//! A labelled form field around one child: a bordered panel (unless embedded) and a row below
//! it for an error message while there is one.
use vstd::prelude::*;
use crate::geometry::{
    sat_add16, sat_sub, spec_subtract_proposal, subtract_proposal, AxisExpand, HintSource,
    LayoutProposal, LayoutSize, LayoutSizeHint, Rect,
};
use crate::dropdown::{bordered_inner, spec_bordered_inner};

verus! {

/// How the field's panel is drawn.
#[derive(Debug, Clone, Copy, PartialEq, Eq, Structural)]
pub enum PanelTone {
    Normal,
    Error,
}

/// A form field: its label, its error message, whether it draws no panel of its own, and the
/// areas of its last layout.
#[derive(Debug, Clone, PartialEq, Eq)]
pub struct FormField {
    pub label: String,
    pub error: Option<String>,
    pub tone: PanelTone,
    pub embedded: bool,
    pub panel_area: Rect,
    pub child_area: Rect,
    pub feedback_area: Rect,
}

impl FormField {
    /// A field labelled `label`, with a panel and no error.
    pub fn new(label: String) -> (r: FormField)
        ensures
            r.label == label,
            r.error.is_none(),
            r.tone == PanelTone::Normal,
            !r.embedded,
            r.panel_area == (Rect { x: 0, y: 0, width: 0, height: 0 }),
            r.child_area == (Rect { x: 0, y: 0, width: 0, height: 0 }),
            r.feedback_area == (Rect { x: 0, y: 0, width: 0, height: 0 }),
    {
        FormField {
            label,
            error: None,
            tone: PanelTone::Normal,
            embedded: false,
            panel_area: Rect::zero(),
            child_area: Rect::zero(),
            feedback_area: Rect::zero(),
        }
    }

    /// Draws no panel: the child takes the field's area.
    pub fn embedded(self) -> (r: FormField)
        ensures
            r == (FormField { embedded: true, ..self }),
    {
        FormField { embedded: true, ..self }
    }

    /// Sets or clears the error; the panel shows the error tone while there is one.
    pub fn set_error(&mut self, error: Option<String>)
        ensures
            *final(self) == (FormField {
                error,
                tone: if error is Some { PanelTone::Error } else { PanelTone::Normal },
                ..*old(self)
            }),
    {
        self.tone = if error.is_some() { PanelTone::Error } else { PanelTone::Normal };
        self.error = error;
    }

    pub fn error(&self) -> (r: &Option<String>)
        ensures
            *r == self.error,
    {
        &self.error
    }

    /// The cells the panel takes around the child on each axis.
    pub open spec fn spec_chrome(self) -> u16 {
        if self.embedded { 0 } else { 2 }
    }

    /// The rows the error message takes.
    pub open spec fn spec_feedback_height(self) -> u16 {
        if self.error is Some { 1 } else { 0 }
    }

    /// What the child is offered when the field is measured with `proposal`: the proposal less
    /// the panel, and less the error row in height.
    pub open spec fn spec_child_proposal(self, proposal: LayoutProposal) -> LayoutProposal {
        LayoutProposal {
            width: spec_subtract_proposal(proposal.width, self.spec_chrome()),
            height: spec_subtract_proposal(proposal.height, (self.spec_chrome() + self.spec_feedback_height()) as u16),
        }
    }

    pub fn child_proposal(&self, proposal: LayoutProposal) -> (r: LayoutProposal)
        ensures
            r == self.spec_child_proposal(proposal),
    {
        let chrome: u16 = if self.embedded { 0 } else { 2 };
        let feedback: u16 = if self.error.is_some() { 1 } else { 0 };
        LayoutProposal {
            width: subtract_proposal(proposal.width, chrome),
            height: subtract_proposal(proposal.height, chrome + feedback),
        }
    }

    /// What the field asks for, given what the child asked for with `child_proposal`: the
    /// child's preferred size plus the panel, and the error row in height.
    pub fn measure(&self, child: LayoutSizeHint) -> (r: LayoutSizeHint)
        ensures
            ({
                let w = sat_add16(child.preferred.width as int, self.spec_chrome() as int) as u16;
                let h = sat_add16(
                    child.preferred.height as int,
                    self.spec_chrome() + self.spec_feedback_height(),
                ) as u16;
                r == LayoutSizeHint {
                    source: HintSource::Measured,
                    min: LayoutSize { width: w, height: h },
                    preferred: LayoutSize { width: w, height: h },
                    expand: AxisExpand { width: false, height: false },
                }
            }),
    {
        let chrome: u16 = if self.embedded { 0 } else { 2 };
        let feedback: u16 = if self.error.is_some() { 1 } else { 0 };
        LayoutSizeHint::content(
            child.preferred.width.saturating_add(chrome),
            child.preferred.height.saturating_add(chrome + feedback),
        )
    }

    /// Lays the field out in `area`: the error row (while there is an error and a row to spare)
    /// at the bottom, the panel above it, and the child inside the panel (or in all of it when
    /// embedded). Returns the child's area.
    pub fn layout(&mut self, area: Rect) -> (r: Rect)
        ensures
            ({
                let feedback: int = if old(self).error is Some && area.height > 0 { 1 } else { 0 };
                let panel = Rect::spec_new(area.x, area.y, area.width, sat_sub(area.height as int, feedback) as u16);
                let feedback_area = Rect::spec_new(
                    area.x,
                    sat_add16(area.y as int, panel.height as int) as u16,
                    area.width,
                    feedback as u16,
                );
                let child = if old(self).embedded { panel } else { spec_bordered_inner(panel) };
                &&& *final(self) == (FormField {
                    panel_area: panel,
                    feedback_area,
                    child_area: child,
                    ..*old(self)
                })
                &&& r == child
            }),
    {
        let feedback: u16 = if self.error.is_some() && area.height > 0 { 1 } else { 0 };
        let panel = Rect::new(area.x, area.y, area.width, area.height.saturating_sub(feedback));
        let feedback_area = Rect::new(area.x, area.y.saturating_add(panel.height), area.width, feedback);
        let child = if self.embedded { panel } else { bordered_inner(panel) };
        self.panel_area = panel;
        self.feedback_area = feedback_area;
        self.child_area = child;
        child
    }
}

} // verus!
