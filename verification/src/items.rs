use vstd::prelude::*;

verus! {

/// One incoming message, normalized for storage and notification.
#[derive(Debug, Clone)]
pub struct MessageItem {
    pub id: String,
    pub title: String,
    pub body: String,
    pub date: String,
    pub user: String,
}

/// Spec-level mirror of `MessageItem`.
pub struct MessageItemView {
    pub id: Seq<char>,
    pub title: Seq<char>,
    pub body: Seq<char>,
    pub date: Seq<char>,
    pub user: Seq<char>,
}

impl View for MessageItem {
    type V = MessageItemView;

    open spec fn view(&self) -> MessageItemView {
        MessageItemView {
            id: self.id@,
            title: self.title@,
            body: self.body@,
            date: self.date@,
            user: self.user@,
        }
    }
}

impl DeepView for MessageItem {
    type V = MessageItemView;

    open spec fn deep_view(&self) -> MessageItemView {
        self.view()
    }
}

/// One school announcement, normalized for storage and notification.
#[derive(Debug, Clone)]
pub struct AnnouncementItem {
    pub id: String,
    pub title: String,
    pub content: String,
    pub date: String,
    pub author: String,
}

/// Spec-level mirror of `AnnouncementItem`.
pub struct AnnouncementItemView {
    pub id: Seq<char>,
    pub title: Seq<char>,
    pub content: Seq<char>,
    pub date: Seq<char>,
    pub author: Seq<char>,
}

impl View for AnnouncementItem {
    type V = AnnouncementItemView;

    open spec fn view(&self) -> AnnouncementItemView {
        AnnouncementItemView {
            id: self.id@,
            title: self.title@,
            content: self.content@,
            date: self.date@,
            author: self.author@,
        }
    }
}

impl DeepView for AnnouncementItem {
    type V = AnnouncementItemView;

    open spec fn deep_view(&self) -> AnnouncementItemView {
        self.view()
    }
}

/// One grade, normalized for storage and notification.
#[derive(Debug, Clone)]
pub struct GradeItem {
    pub id: String,
    pub subject: String,
    pub value: String,
    pub info: String,
}

/// Spec-level mirror of `GradeItem`.
pub struct GradeItemView {
    pub id: Seq<char>,
    pub subject: Seq<char>,
    pub value: Seq<char>,
    pub info: Seq<char>,
}

impl View for GradeItem {
    type V = GradeItemView;

    open spec fn view(&self) -> GradeItemView {
        GradeItemView {
            id: self.id@,
            subject: self.subject@,
            value: self.value@,
            info: self.info@,
        }
    }
}

impl DeepView for GradeItem {
    type V = GradeItemView;

    open spec fn deep_view(&self) -> GradeItemView {
        self.view()
    }
}

/// One homework assignment, normalized for storage and notification.
#[derive(Debug, Clone)]
pub struct HomeworkItem {
    pub id: String,
    pub subject: String,
    pub title: String,
    pub kind: String,
    pub from: String,
    pub to: String,
    pub content: String,
    pub user: String,
}

/// Spec-level mirror of `HomeworkItem`.
pub struct HomeworkItemView {
    pub id: Seq<char>,
    pub subject: Seq<char>,
    pub title: Seq<char>,
    pub kind: Seq<char>,
    pub from: Seq<char>,
    pub to: Seq<char>,
    pub content: Seq<char>,
    pub user: Seq<char>,
}

impl View for HomeworkItem {
    type V = HomeworkItemView;

    open spec fn view(&self) -> HomeworkItemView {
        HomeworkItemView {
            id: self.id@,
            subject: self.subject@,
            title: self.title@,
            kind: self.kind@,
            from: self.from@,
            to: self.to@,
            content: self.content@,
            user: self.user@,
        }
    }
}

impl DeepView for HomeworkItem {
    type V = HomeworkItemView;

    open spec fn deep_view(&self) -> HomeworkItemView {
        self.view()
    }
}

impl MessageItem {
    /// A field-by-field copy, equal to the original.
    pub fn duplicate(&self) -> (r: MessageItem)
        ensures
            r == *self,
    {
        MessageItem {
            id: self.id.clone(),
            title: self.title.clone(),
            body: self.body.clone(),
            date: self.date.clone(),
            user: self.user.clone(),
        }
    }
}

impl AnnouncementItem {
    /// A field-by-field copy, equal to the original.
    pub fn duplicate(&self) -> (r: AnnouncementItem)
        ensures
            r == *self,
    {
        AnnouncementItem {
            id: self.id.clone(),
            title: self.title.clone(),
            content: self.content.clone(),
            date: self.date.clone(),
            author: self.author.clone(),
        }
    }
}

impl GradeItem {
    /// A field-by-field copy, equal to the original.
    pub fn duplicate(&self) -> (r: GradeItem)
        ensures
            r == *self,
    {
        GradeItem {
            id: self.id.clone(),
            subject: self.subject.clone(),
            value: self.value.clone(),
            info: self.info.clone(),
        }
    }
}

impl HomeworkItem {
    /// A field-by-field copy, equal to the original.
    pub fn duplicate(&self) -> (r: HomeworkItem)
        ensures
            r == *self,
    {
        HomeworkItem {
            id: self.id.clone(),
            subject: self.subject.clone(),
            title: self.title.clone(),
            kind: self.kind.clone(),
            from: self.from.clone(),
            to: self.to.clone(),
            content: self.content.clone(),
            user: self.user.clone(),
        }
    }
}

/// The summary a downstream analyzer returns for one batch of items.
#[derive(Debug, Clone)]
pub struct Analysis {
    pub urgency: String,
    pub summary: String,
    pub key_points: Vec<String>,
}

/// A school notice as the remote listing returns it: the author is a
/// foreign reference (a numeric id carried as text) still to be resolved.
#[derive(Debug, Clone)]
pub struct RawNotice {
    pub id: String,
    pub subject: String,
    pub content: String,
    pub author_id: String,
    pub creation_date: String,
}

/// An inbox message as the remote listing returns it; `content` is still
/// in the transport encoding.
#[derive(Debug, Clone)]
pub struct RawMessage {
    pub message_id: String,
    pub topic: String,
    pub content: String,
    pub send_date: String,
    pub sender_name: String,
}

/// A grade as the remote listing returns it: subject and comments are
/// foreign references still to be resolved.
#[derive(Debug, Clone)]
pub struct RawGrade {
    pub id: i64,
    pub subject_id: i64,
    pub grade: String,
    pub comment_ids: Vec<i64>,
}

/// A homework assignment as the remote listing returns it: subject and
/// teacher are foreign references still to be resolved.
#[derive(Debug, Clone)]
pub struct RawHomework {
    pub id: i64,
    pub subject_id: Option<i64>,
    pub teacher_id: i64,
    pub date: String,
    pub content: String,
}

} // verus!
