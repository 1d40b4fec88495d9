# mensa

Today's menu of Mensa am Schloss (Mannheim): the menu page is read into
meals, meals with configured allergen codes are highlighted or hidden,
favorite keywords are marked, and the result is laid out for a terminal or
encoded as JSON for the Android app.

The library in `src/` is written in Verus; every function there carries a
contract that Verus proves.

- `text`: characters, Unicode whitespace, ASCII case folding, trimming,
  splitting and joining.
- `ingredients`: the grammar of an ingredient list, `Pasta (Weizen), Pudding (Mi)`,
  and whitespace normalization.
- `display`: style escape sequences and visible length, word wrapping, the
  text of an HTML snippet.
- `style`: the terminal styles.
- `markup`: the calls into the HTML parser.
- `meal`: meals, their rendering, prices, allergen and favorite matching,
  and the meals of a menu page.
- `preferences`: defaults, the config file's settings, and the lists of
  allergen codes and favorites.
- `cli`: how options change the preferences and how a day is laid out.
- `calendar`: the date an option names, the next day, the working week and
  the heading of a day, on chrono's calendar.
- `fetch_state`: what a menu window shows while a worker fetches the menu.
- `window`: the menu window's toolbar (language, day, refresh, switches)
  and its heading.
- `android_bridge`: the JSON answer for the Android app.

`app/` holds the program around the library: option reading, the config
file, the HTTP request and its cache, the terminal size and the JNI entry
point. `tests/` runs the library.
