# add_vanilla_refs

Cuts a Morrowind plugin loose from its master files. What the plugin needs of the masters is copied
into it, its dialogue is written anew so that no topic and no line refers to a master, deleted and
doubled records are removed, and the header names no master any more.

`src/` is the library, verified with Verus. Its contracts speak of views of the records
(`record_views`), in which ids are sequences of characters; ids are compared without regard to the
case of ASCII letters.

| Modules | What they hold |
| --- | --- |
| `text`, `ids`, `id_map` | ids: folding, order, sorted sets and maps |
| `records`, `record_views`, `copies` | the parts of records that rules read |
| `references`, `causes`, `notices` | what a record needs, and in which field it names it |
| `pending`, `closure`, `vanilla_index`, `imports` | copying what is needed, and the foundations |
| `dialogue_group`, `dialogue_records` | the topics in force when plugins are loaded over each other |
| `population`, `scripts`, `topic_reasons`, `live_topics`, `live_infos`, `audit`, `line_counts` | which topics and lines are kept, and the account of it |
| `rebuild` | writing the dialogue anew |
| `cleanup`, `release` | the steps at the end, and the whole way |

The modules whose names end in `_laws`, and the `law_` functions elsewhere, state what holds of
several steps together; the two to begin with are `law_released_plugin_stands_alone` in
`release_laws` and `law_rebuilt_dialogue_stands_alone` in `standalone_laws`.

`app/` is the program around the library. It loads `Starwind.esp` and the masters, keeps the complete
records, hands the library the parts it works on, and prints and saves what comes of it.
