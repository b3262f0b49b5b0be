//! What is said of a turn that failed.
use crate::i18n::Lang;
use crate::product::{Product, ProductView};
use crate::text;
use vstd::prelude::*;

verus! {

/// What is done about a turn that failed: it is tried again, or the person is told.
#[derive(Clone, Copy, Debug, PartialEq, Eq, Structural)]
pub enum TurnFailureClass {
    Retry,
    TellUser,
}

/// What is done about a failure, and what is said of it, in both languages.
pub open spec fn known_failure(lowered: Seq<char>, p: ProductView) -> Option<
    (TurnFailureClass, Seq<char>, Seq<char>),
> {
    if text::has(lowered, "rate_limit"@) {
        Some(
            (
                TurnFailureClass::Retry,
                p.service + " is busy right now, so no reply was written. Wait a moment and send it again."@,
                p.service + " が混み合っていて、返信を書けませんでした。少し待ってからもう一度送ってください。"@,
            ),
        )
    } else if text::has(lowered, "overloaded"@) || text::has(lowered, "server_error"@) {
        Some(
            (
                TurnFailureClass::Retry,
                p.service + " had a temporary problem, so no reply was written. Wait a moment and send it again."@,
                p.service + " 側の一時的な不具合で、返信を書けませんでした。少し待ってからもう一度送ってください。"@,
            ),
        )
    } else if text::has(lowered, "authentication_failed"@) {
        Some(
            (
                TurnFailureClass::TellUser,
                p.program + " is signed out, so no reply was written. DM the bot `login` to sign in again."@,
                p.program + " のサインインが切れていて、返信を書けませんでした。ボットに `login` と DM してサインインし直してください。"@,
            ),
        )
    } else if text::has(lowered, "oauth_org_not_allowed"@) {
        Some(
            (
                TurnFailureClass::TellUser,
                "Your organization doesn't allow this account to use "@ + p.program + ", so no reply was written. Ask your admin."@,
                "組織の設定で、このアカウントは "@ + p.program + " を使えません。返信を書けなかったので、管理者に確認してください。"@,
            ),
        )
    } else if text::has(lowered, "billing_error"@) {
        Some(
            (
                TurnFailureClass::TellUser,
                "There's a billing problem with your "@ + p.service + " account, so no reply was written. Check your billing settings."@,
                p.service + " のアカウントの支払いに問題があり、返信を書けませんでした。支払いの設定を確認してください。"@,
            ),
        )
    } else if text::has(lowered, "max_output_tokens"@) {
        Some(
            (
                TurnFailureClass::TellUser,
                "The answer hit the output limit before it was finished. Ask for a narrower part."@,
                "答えが長すぎて、出力の上限を超えました。範囲を絞って聞き直してください。"@,
            ),
        )
    } else if text::has(lowered, "invalid_request"@) {
        Some(
            (
                TurnFailureClass::TellUser,
                "The request was too large (or invalid). Run `compact` to shrink the conversation, or send a shorter message."@,
                "依頼が大きすぎるか、正しくありません。`compact` で会話を圧縮するか、短くして送り直してください。"@,
            ),
        )
    } else if text::has(lowered, "model_not_found"@) {
        Some(
            (
                TurnFailureClass::TellUser,
                "The selected model doesn't exist, so no reply was written. Check the model with `model`."@,
                "選んだモデルが見つからず、返信を書けませんでした。`model` でモデルを確認してください。"@,
            ),
        )
    } else {
        None
    }
}

/// What is done about a failure, and what is said of it. One that is not known is tried again, and its
/// name is kept in what is said: it is the only clue.
pub open spec fn failure_said(
    reason: Seq<char>,
    lowered: Seq<char>,
    p: ProductView,
    lang: Lang,
) -> (TurnFailureClass, Seq<char>) {
    match known_failure(lowered, p) {
        Some((class, en, ja)) => (class, lang.of(en, ja)),
        None => (
            TurnFailureClass::Retry,
            if reason.len() == 0 {
                lang.of(
                    "No reply was written. Send it again."@,
                    "返信を書けませんでした。もう一度送ってください。"@,
                )
            } else {
                lang.of("No reply was written (`"@, "返信を書けませんでした(`"@) + reason + lang.of(
                    "`). Send it again."@,
                    "`)。もう一度送ってください。"@,
                )
            },
        ),
    }
}

impl TurnFailureClass {
    /// The name of a class.
    pub fn as_str(self) -> (s: &'static str)
        ensures
            s@ == match self {
                TurnFailureClass::Retry => "retry"@,
                TurnFailureClass::TellUser => "tell-user"@,
            },
    {
        match self {
            TurnFailureClass::Retry => "retry",
            TurnFailureClass::TellUser => "tell-user",
        }
    }

    /// What is done about a failure, and what is said of it. Its name is looked for in the reason,
    /// whatever its case.
    pub fn of(reason: &str, product: &Product, lang: Lang) -> (r: (TurnFailureClass, String))
        ensures
            (r.0, r.1@) == failure_said(reason@, text::lowercase(reason@), product@, lang),
    {
        let lowered: String = text::to_lowercase(reason);
        Self::of_lowered(reason, lowered.as_str(), product, lang)
    }

    /// What is done about a failure, and what is said of it, given the reason in small letters too.
    pub fn of_lowered(reason: &str, lowered: &str, product: &Product, lang: Lang) -> (r: (
        TurnFailureClass,
        String,
    ))
        ensures
            (r.0, r.1@) == failure_said(reason@, lowered@, product@, lang),
    {
        if text::contains(lowered, "rate_limit") {
            (
                TurnFailureClass::Retry,
                match lang {
                    Lang::En => text::cat(
                        product.service.as_str(),
                        " is busy right now, so no reply was written. Wait a moment and send it again.",
                    ),
                    Lang::Ja => text::cat(
                        product.service.as_str(),
                        " が混み合っていて、返信を書けませんでした。少し待ってからもう一度送ってください。",
                    ),
                },
            )
        } else if text::contains(lowered, "overloaded") || text::contains(
            lowered,
            "server_error",
        ) {
            (
                TurnFailureClass::Retry,
                match lang {
                    Lang::En => text::cat(
                        product.service.as_str(),
                        " had a temporary problem, so no reply was written. Wait a moment and send it again.",
                    ),
                    Lang::Ja => text::cat(
                        product.service.as_str(),
                        " 側の一時的な不具合で、返信を書けませんでした。少し待ってからもう一度送ってください。",
                    ),
                },
            )
        } else if text::contains(lowered, "authentication_failed") {
            (
                TurnFailureClass::TellUser,
                match lang {
                    Lang::En => text::cat(
                        product.program.as_str(),
                        " is signed out, so no reply was written. DM the bot `login` to sign in again.",
                    ),
                    Lang::Ja => text::cat(
                        product.program.as_str(),
                        " のサインインが切れていて、返信を書けませんでした。ボットに `login` と DM してサインインし直してください。",
                    ),
                },
            )
        } else if text::contains(lowered, "oauth_org_not_allowed") {
            (
                TurnFailureClass::TellUser,
                match lang {
                    Lang::En => text::cat3(
                        "Your organization doesn't allow this account to use ",
                        product.program.as_str(),
                        ", so no reply was written. Ask your admin.",
                    ),
                    Lang::Ja => text::cat3(
                        "組織の設定で、このアカウントは ",
                        product.program.as_str(),
                        " を使えません。返信を書けなかったので、管理者に確認してください。",
                    ),
                },
            )
        } else if text::contains(lowered, "billing_error") {
            (
                TurnFailureClass::TellUser,
                match lang {
                    Lang::En => text::cat3(
                        "There's a billing problem with your ",
                        product.service.as_str(),
                        " account, so no reply was written. Check your billing settings.",
                    ),
                    Lang::Ja => text::cat(
                        product.service.as_str(),
                        " のアカウントの支払いに問題があり、返信を書けませんでした。支払いの設定を確認してください。",
                    ),
                },
            )
        } else if text::contains(lowered, "max_output_tokens") {
            (
                TurnFailureClass::TellUser,
                lang.pick(
                    "The answer hit the output limit before it was finished. Ask for a narrower part.",
                    "答えが長すぎて、出力の上限を超えました。範囲を絞って聞き直してください。",
                ).to_owned(),
            )
        } else if text::contains(lowered, "invalid_request") {
            (
                TurnFailureClass::TellUser,
                lang.pick(
                    "The request was too large (or invalid). Run `compact` to shrink the conversation, or send a shorter message.",
                    "依頼が大きすぎるか、正しくありません。`compact` で会話を圧縮するか、短くして送り直してください。",
                ).to_owned(),
            )
        } else if text::contains(lowered, "model_not_found") {
            (
                TurnFailureClass::TellUser,
                lang.pick(
                    "The selected model doesn't exist, so no reply was written. Check the model with `model`.",
                    "選んだモデルが見つからず、返信を書けませんでした。`model` でモデルを確認してください。",
                ).to_owned(),
            )
        } else if reason.is_empty() {
            (
                TurnFailureClass::Retry,
                lang.pick(
                    "No reply was written. Send it again.",
                    "返信を書けませんでした。もう一度送ってください。",
                ).to_owned(),
            )
        } else {
            (
                TurnFailureClass::Retry,
                text::cat3(
                    lang.pick("No reply was written (`", "返信を書けませんでした(`"),
                    reason,
                    lang.pick("`). Send it again.", "`)。もう一度送ってください。"),
                ),
            )
        }
    }
}

/// What is done about a failure does not depend on the language it is said in.
pub proof fn law_class_is_the_same(reason: Seq<char>, lowered: Seq<char>, p: ProductView)
    ensures
        failure_said(reason, lowered, p, Lang::En).0 == failure_said(reason, lowered, p, Lang::Ja).0,
{
}

} // verus!
